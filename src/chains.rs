use crate::layout::FieldEntry;
use crate::memory::RemoteReader;
use crate::resolve::location_spec;
use crate::walker::{
    FrameModel,
    MAX_DEPTH,
    WalkStatus,
    frame_model,
    frame_reads_spec,
    walk_spec,
};
use vstd::prelude::*;

verus! {

/// Whether `c` is a chain of distinct, readable frames, innermost first:
/// each frame's caller is the next one, and the last one's caller is `end`.
pub open spec fn is_frame_chain<R: RemoteReader>(
    r: &R,
    l: Seq<FieldEntry>,
    c: Seq<u64>,
    end: u64,
) -> bool {
    &&& c.no_duplicates()
    &&& forall|i: int|
        0 <= i < c.len() ==> {
            &&& c[i] != 0
            &&& #[trigger] frame_reads_spec(r, l, c[i]) is Ok
            &&& frame_reads_spec(r, l, c[i])->Ok_0.2 == if i + 1 < c.len() {
                c[i + 1]
            } else {
                end
            }
        }
}

/// The record of frame `i` of chain `c`.
pub open spec fn chain_frame<R: RemoteReader>(
    r: &R,
    l: Seq<FieldEntry>,
    c: Seq<u64>,
    i: int,
) -> FrameModel {
    let (code, lasti, back) = frame_reads_spec(r, l, c[i])->Ok_0;
    frame_model(r, l, c[i], code, lasti, i as nat)
}

/// Whether the location of frame `i` of chain `c` can be read.
pub open spec fn chain_location_readable<R: RemoteReader>(
    r: &R,
    l: Seq<FieldEntry>,
    c: Seq<u64>,
    i: int,
) -> bool {
    let (code, lasti, back) = frame_reads_spec(r, l, c[i])->Ok_0;
    location_spec(r, l, code, lasti) is Ok
}

proof fn lemma_walk_chain_from<R: RemoteReader>(
    r: &R,
    l: Seq<FieldEntry>,
    c: Seq<u64>,
    end: u64,
    k: int,
    a: u64,
)
    requires
        a == if k < c.len() {
            c[k]
        } else {
            end
        },
        is_frame_chain(r, l, c, end),
        c.len() <= MAX_DEPTH,
        0 <= k <= c.len(),
        end == 0 || c.contains(end),
    ensures
        ({
            let res = walk_spec(r, l, a, c.take(k));
            &&& res.0.len() == c.len() - k
            &&& forall|i: int| 0 <= i < res.0.len() ==> #[trigger] res.0[i] == chain_frame(r, l, c, k + i)
            &&& end == 0 ==> res.1 == if (forall|i: int|
                k <= i < c.len() ==> #[trigger] chain_location_readable(r, l, c, i)) {
                WalkStatus::Complete
            } else {
                WalkStatus::Partial
            }
            &&& end != 0 ==> res.1 == WalkStatus::CycleDetected
        }),
    decreases c.len() - k,
{
    if k == c.len() {
        assert(c.take(k) =~= c);
    } else {
        assert(frame_reads_spec(r, l, c[k]) is Ok);
        let next = if k + 1 < c.len() {
            c[k + 1]
        } else {
            end
        };
        assert(!c.take(k).contains(a)) by {
            if c.take(k).contains(a) {
                let j = choose|j: int| 0 <= j < c.take(k).len() && c.take(k)[j] == a;
                assert(c[j] == c[k]);
            }
        }
        assert(c.take(k).push(a) =~= c.take(k + 1));
        lemma_walk_chain_from(r, l, c, end, k + 1, next);
        let f = chain_frame(r, l, c, k);
        let rest = walk_spec(r, l, next, c.take(k + 1));
        let res = walk_spec(r, l, a, c.take(k));
        assert(frame_reads_spec(r, l, c[k])->Ok_0.2 == if k + 1 < c.len() { c[k + 1] } else { end });
        assert(res.0 == seq![f] + rest.0);
        assert forall|i: int| 0 <= i < res.0.len() implies #[trigger] res.0[i] == chain_frame(r, l, c, k + i) by {
            if i > 0 {
                assert(res.0[i] == rest.0[i - 1]);
                assert(k + 1 + (i - 1) == k + i);
            }
        }
        if end == 0 {
            if forall|i: int| k <= i < c.len() ==> #[trigger] chain_location_readable(r, l, c, i) {
                assert(chain_location_readable(r, l, c, k));
            } else {
                let i0 = choose|i: int| k <= i < c.len() && !#[trigger] chain_location_readable(r, l, c, i);
                if i0 != k {
                    assert(!(forall|i: int| k + 1 <= i < c.len() ==> #[trigger] chain_location_readable(r, l, c, i)));
                }
            }
        }
    }
}

/// A chain of distinct frames no longer than the depth bound and ending at a
/// null caller is walked whole: one record per frame, innermost first, with
/// status complete when every location can be read.
pub proof fn lemma_acyclic_chain_complete<R: RemoteReader>(r: &R, l: Seq<FieldEntry>, c: Seq<u64>)
    requires
        c.len() > 0,
        c.len() <= MAX_DEPTH,
        is_frame_chain(r, l, c, 0),
        forall|i: int| 0 <= i < c.len() ==> #[trigger] chain_location_readable(r, l, c, i),
    ensures
        ({
            let res = walk_spec(r, l, c[0], Seq::empty());
            &&& res.0.len() == c.len()
            &&& forall|i: int| 0 <= i < c.len() ==> (#[trigger] res.0[i]).address == c[i] && res.0[i].depth == i && res.0[i].resolved
            &&& forall|i: int| 0 <= i < c.len() ==> #[trigger] res.0[i] == chain_frame(r, l, c, i)
            &&& res.1 == WalkStatus::Complete
        }),
{
    lemma_walk_chain_from(r, l, c, 0, 0, c[0]);
    assert(c.take(0) =~= Seq::<u64>::empty());
    let res = walk_spec(r, l, c[0], Seq::empty());
    assert forall|i: int| 0 <= i < c.len() implies #[trigger] res.0[i] == chain_frame(r, l, c, i) by {
        assert(res.0[i] == chain_frame(r, l, c, 0 + i));
    }
    assert forall|i: int| 0 <= i < c.len() implies (#[trigger] res.0[i]).address == c[i] && res.0[i].depth == i && res.0[i].resolved by {
        assert(res.0[i] == chain_frame(r, l, c, 0 + i));
        assert(chain_location_readable(r, l, c, i));
    }
}

/// A chain of distinct frames whose last caller points back into the chain
/// is walked to its end and no further: one record per distinct frame, and
/// status cycle-detected.
pub proof fn lemma_cyclic_chain_detected<R: RemoteReader>(
    r: &R,
    l: Seq<FieldEntry>,
    c: Seq<u64>,
    end: u64,
)
    requires
        c.len() > 0,
        c.len() <= MAX_DEPTH,
        is_frame_chain(r, l, c, end),
        c.contains(end),
    ensures
        ({
            let res = walk_spec(r, l, c[0], Seq::empty());
            &&& res.0.len() == c.len()
            &&& forall|i: int| 0 <= i < c.len() ==> (#[trigger] res.0[i]).address == c[i]
            &&& forall|i: int| 0 <= i < c.len() ==> #[trigger] res.0[i] == chain_frame(r, l, c, i)
            &&& res.1 == WalkStatus::CycleDetected
        }),
{
    let j = choose|j: int| 0 <= j < c.len() && c[j] == end;
    assert(frame_reads_spec(r, l, c[j]) is Ok);
    lemma_walk_chain_from(r, l, c, end, 0, c[0]);
    assert(c.take(0) =~= Seq::<u64>::empty());
    let res = walk_spec(r, l, c[0], Seq::empty());
    assert forall|i: int| 0 <= i < c.len() implies #[trigger] res.0[i] == chain_frame(r, l, c, i) by {
        assert(res.0[i] == chain_frame(r, l, c, 0 + i));
    }
    assert forall|i: int| 0 <= i < c.len() implies (#[trigger] res.0[i]).address == c[i] by {
        assert(res.0[i] == chain_frame(r, l, c, 0 + i));
    }
}

/// Where the location of one frame cannot be read (its code object is not
/// mapped, say) and every other can, the walk keeps every frame: that one
/// becomes a placeholder, the others are resolved, and the status is
/// partial.
pub proof fn lemma_unreadable_location_placeholder<R: RemoteReader>(
    r: &R,
    l: Seq<FieldEntry>,
    c: Seq<u64>,
    j: int,
)
    requires
        c.len() <= MAX_DEPTH,
        0 <= j < c.len(),
        is_frame_chain(r, l, c, 0),
        !chain_location_readable(r, l, c, j),
        forall|i: int| 0 <= i < c.len() && i != j ==> #[trigger] chain_location_readable(r, l, c, i),
    ensures
        ({
            let res = walk_spec(r, l, c[0], Seq::empty());
            &&& res.0.len() == c.len()
            &&& res.0[j].address == c[j]
            &&& !res.0[j].resolved
            &&& res.0[j].function.len() == 0
            &&& res.0[j].file.len() == 0
            &&& forall|i: int| 0 <= i < c.len() && i != j ==> (#[trigger] res.0[i]).resolved && res.0[i].address == c[i]
            &&& forall|i: int| 0 <= i < c.len() ==> #[trigger] res.0[i] == chain_frame(r, l, c, i)
            &&& res.1 == WalkStatus::Partial
        }),
{
    lemma_walk_chain_from(r, l, c, 0, 0, c[0]);
    assert(c.take(0) =~= Seq::<u64>::empty());
    let res = walk_spec(r, l, c[0], Seq::empty());
    assert forall|i: int| 0 <= i < c.len() implies #[trigger] res.0[i] == chain_frame(r, l, c, i) by {
        assert(res.0[i] == chain_frame(r, l, c, 0 + i));
    }
    assert(res.0[j] == chain_frame(r, l, c, 0 + j));
    assert(!(forall|i: int| 0 <= i < c.len() ==> #[trigger] chain_location_readable(r, l, c, i)));
    assert forall|i: int| 0 <= i < c.len() && i != j implies (#[trigger] res.0[i]).resolved && res.0[i].address == c[i] by {
        assert(res.0[i] == chain_frame(r, l, c, 0 + i));
        assert(chain_location_readable(r, l, c, i));
    }
}

} // verus!
