use vstd::prelude::*;

verus! {

/// Longest run of samples rendered in one go.
pub const MAX_BLOCK_SIZE: usize = 64;

/// A run of samples `[start, end)` rendered with one state of the synthesizer.
/// Before it is rendered, the events before index `events_end` of the buffer's
/// event sequence have been applied.
#[derive(Clone, Copy, Debug, PartialEq, Eq, Structural)]
pub struct SubBlock {
    pub start: usize,
    pub end: usize,
    pub events_end: usize,
}

/// Where the sub-block that starts at `start` ends: `MAX_BLOCK_SIZE` samples later
/// or at the end of the buffer, whichever comes first, or earlier at the offset of
/// the next pending event when that lies inside. An offset at or before `start`
/// never moves the end back.
pub open spec fn block_end(start: int, num_samples: int, next_event: Option<int>) -> int {
    let cap = if start + MAX_BLOCK_SIZE < num_samples { start + MAX_BLOCK_SIZE } else { num_samples };
    match next_event {
        Some(t) => if start < t && t < cap { t } else { cap },
        None => cap,
    }
}

/// The end of the sub-block that starts at `block_start`, given the offset of the
/// first event not yet applied, if any.
pub fn sub_block_end(block_start: usize, num_samples: usize, next_event: Option<usize>) -> (r: usize)
    requires
        block_start < num_samples,
    ensures
        r == block_end(
            block_start as int,
            num_samples as int,
            match next_event {
                Some(t) => Some(t as int),
                None => None,
            },
        ),
        block_start < r <= num_samples,
        r - block_start <= MAX_BLOCK_SIZE,
{
    let cap: usize = if num_samples - block_start > MAX_BLOCK_SIZE {
        block_start + MAX_BLOCK_SIZE
    } else {
        num_samples
    };
    match next_event {
        Some(t) => if block_start < t && t < cap {
            t
        } else {
            cap
        },
        None => cap,
    }
}

/// From index `ev` on, the first event whose offset lies after `start`: the
/// events before it are due at or before `start`.
pub open spec fn skip_applied(timings: Seq<usize>, ev: int, start: int) -> int
    decreases timings.len() - ev,
{
    if 0 <= ev < timings.len() && timings[ev] <= start {
        skip_applied(timings, ev + 1, start)
    } else {
        ev
    }
}

/// The offset of event `e`, if there is one.
pub open spec fn pending(timings: Seq<usize>, e: int) -> Option<int> {
    if 0 <= e < timings.len() {
        Some(timings[e] as int)
    } else {
        None
    }
}

/// The sub-blocks from `start` to the end of the buffer, when the events before
/// `ev` have been applied: at each sub-block's start every event due by then is
/// applied, and the sub-block ends as `block_end` says.
pub open spec fn plan(num_samples: int, timings: Seq<usize>, start: int, ev: int) -> Seq<SubBlock>
    decreases num_samples - start,
{
    if start >= num_samples || start < 0 {
        Seq::empty()
    } else {
        let e = skip_applied(timings, ev, start);
        let end = block_end(start, num_samples, pending(timings, e));
        seq![SubBlock { start: start as usize, end: end as usize, events_end: e as usize }]
            + plan(num_samples, timings, end, e)
    }
}

proof fn lemma_skip_applied_bounds(timings: Seq<usize>, ev: int, start: int)
    requires
        0 <= ev <= timings.len(),
    ensures
        ev <= skip_applied(timings, ev, start) <= timings.len(),
        forall|i: int| ev <= i < skip_applied(timings, ev, start) ==> timings[i] <= start,
        skip_applied(timings, ev, start) < timings.len() ==> timings[skip_applied(timings, ev, start)]
            > start,
    decreases timings.len() - ev,
{
    if ev < timings.len() && timings[ev] <= start {
        lemma_skip_applied_bounds(timings, ev + 1, start);
    }
}

/// Splits a buffer of `num_samples` samples at the offsets of its events into the
/// sub-blocks that are rendered one after another, each at most `MAX_BLOCK_SIZE`
/// long, and says before which of them each event is applied.
pub fn split_blocks(num_samples: usize, timings: &Vec<usize>) -> (r: Vec<SubBlock>)
    ensures
        r@ == plan(num_samples as int, timings@, 0, 0),
{
    let mut r: Vec<SubBlock> = Vec::new();
    let mut block_start: usize = 0;
    let mut ev: usize = 0;
    while block_start < num_samples
        invariant
            block_start <= num_samples,
            ev <= timings.len(),
            r@ + plan(num_samples as int, timings@, block_start as int, ev as int) == plan(
                num_samples as int,
                timings@,
                0,
                0,
            ),
        decreases num_samples - block_start,
    {
        let ghost e = skip_applied(timings@, ev as int, block_start as int);
        proof {
            lemma_skip_applied_bounds(timings@, ev as int, block_start as int);
        }
        while ev < timings.len() && timings[ev] <= block_start
            invariant
                ev <= timings.len(),
                skip_applied(timings@, ev as int, block_start as int) == e,
            decreases timings.len() - ev,
        {
            ev += 1;
        }
        let next_event = if ev < timings.len() {
            Some(timings[ev])
        } else {
            None
        };
        let block_end = sub_block_end(block_start, num_samples, next_event);
        let ghost old_r = r@;
        r.push(SubBlock { start: block_start, end: block_end, events_end: ev });
        proof {
            let tail = plan(num_samples as int, timings@, block_end as int, ev as int);
            assert(pending(timings@, ev as int) == match next_event {
                Some(t) => Some(t as int),
                None => None::<int>,
            });
            assert(r@ + tail =~= old_r + plan(num_samples as int, timings@, block_start as int, e));
        }
        block_start = block_end;
    }
    assert(plan(num_samples as int, timings@, block_start as int, ev as int) =~= Seq::empty());
    assert(r@ + Seq::<SubBlock>::empty() =~= r@);
    r
}

/// Event offsets that never go back in time.
pub open spec fn is_time_ordered(timings: Seq<usize>) -> bool {
    forall|i: int, j: int| 0 <= i <= j < timings.len() ==> timings[i] <= timings[j]
}

/// Sample-accurate splitting: the sub-blocks cover the buffer in order, without
/// gap or overlap, each at most `MAX_BLOCK_SIZE` samples long. When the event
/// offsets are time-ordered, no offset falls strictly inside a sub-block, and an
/// event is applied before a sub-block exactly when its offset is at or before
/// the sub-block's start.
pub proof fn lemma_plan_sample_accurate(num_samples: int, timings: Seq<usize>, start: int, ev: int)
    requires
        0 <= start <= num_samples <= usize::MAX,
        0 <= ev <= timings.len() <= usize::MAX,
        is_time_ordered(timings) ==> forall|i: int| 0 <= i < ev ==> timings[i] <= start,
    ensures
        ({
            let p = plan(num_samples, timings, start, ev);
            &&& start == num_samples ==> p.len() == 0
            &&& start < num_samples ==> p.len() > 0 && p[0].start == start && p[p.len() - 1].end
                == num_samples
            &&& forall|k: int|
                0 <= k < p.len() ==> start <= (#[trigger] p[k]).start < p[k].end <= num_samples
                    && p[k].end - p[k].start <= MAX_BLOCK_SIZE && ev <= p[k].events_end
                    <= timings.len()
            &&& forall|k: int| 0 <= k < p.len() - 1 ==> (#[trigger] p[k]).end == p[k + 1].start
            &&& is_time_ordered(timings) ==> forall|k: int, i: int|
                0 <= k < p.len() && 0 <= i < timings.len() ==> !(#[trigger] p[k].start
                    < #[trigger] timings[i] < p[k].end)
            &&& is_time_ordered(timings) ==> forall|k: int, i: int|
                0 <= k < p.len() && 0 <= i < timings.len() ==> (i < (#[trigger] p[k]).events_end
                    <==> #[trigger] timings[i] <= p[k].start)
        }),
    decreases num_samples - start,
{
    if start < num_samples {
        let e = skip_applied(timings, ev, start);
        lemma_skip_applied_bounds(timings, ev, start);
        let end = block_end(start, num_samples, pending(timings, e));
        let head = SubBlock { start: start as usize, end: end as usize, events_end: e as usize };
        lemma_plan_sample_accurate(num_samples, timings, end, e);
        let rest = plan(num_samples, timings, end, e);
        let p = plan(num_samples, timings, start, ev);
        assert(p == seq![head] + rest);
        assert(p[0] == head);
        assert forall|k: int| 1 <= k < p.len() implies p[k] == rest[k - 1] by {}
        assert forall|k: int| 0 <= k < p.len() - 1 implies (#[trigger] p[k]).end == p[k + 1].start by {
            if k > 0 {
                assert(p[k] == rest[k - 1]);
                assert(p[k + 1] == rest[k]);
            }
        }
        if is_time_ordered(timings) {
            assert forall|i: int| 0 <= i < timings.len() implies !(start < #[trigger] timings[i] < end)
                && (i < e <==> timings[i] <= start) by {
                if i >= e {
                    assert(timings[e] <= timings[i]);
                }
            }
            assert forall|k: int, i: int| 0 <= k < p.len() && 0 <= i < timings.len() implies !(
            #[trigger] p[k].start < #[trigger] timings[i] < p[k].end) && (i < p[k].events_end
                <==> timings[i] <= p[k].start) by {
                if k > 0 {
                    assert(p[k] == rest[k - 1]);
                }
            }
        }
    }
}

} // verus!
