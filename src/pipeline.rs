//! The extraction pipeline's decisions: how many workers each stage gets,
//! which containers are decrypted to memory, what the extractor does next,
//! the largest-first queue of members, and which members are selected.
use crate::cpk_file::CpkFile;
use crate::selection::{contains_name, named_in};
use vstd::prelude::*;

verus! {

/// Worker counts of the three stages for a parallelism of `threads`:
/// half decrypt, one extracts, and the rest (at least one) decompress.
pub open spec fn stage_sizes(threads: int) -> (int, int, int) {
    let decrypt = threads / 2;
    let rest = threads - decrypt - 1;
    (decrypt, 1, if rest >= 1 {
        rest
    } else {
        1
    })
}

/// Splits `threads_in_use` workers into (decryption, extraction,
/// decompression) workers.
pub fn compute_threads(threads_in_use: usize) -> (r: (usize, usize, usize))
    ensures
        (r.0 as int, r.1 as int, r.2 as int) == stage_sizes(threads_in_use as int),
{
    let extract_threads: usize = 1;
    let decrypt_threads = threads_in_use / 2;
    let decompress_threads = if threads_in_use - decrypt_threads > extract_threads + 1 {
        threads_in_use - decrypt_threads - extract_threads
    } else {
        1
    };
    (decrypt_threads, extract_threads, decompress_threads)
}

/// The parallelism to run with: the requested number of threads, or every
/// available one when none (0) or more than are available is requested.
pub fn threads_to_use(requested: usize, available: usize) -> (r: usize)
    ensures
        r == if requested < 1 || requested > available {
            available
        } else {
            requested
        },
{
    if requested < 1 || requested > available {
        available
    } else {
        requested
    }
}

/// The work list's indices, largest size first: each index once, sizes
/// never increasing along the order.
pub fn largest_first(sizes: &Vec<u64>) -> (order: Vec<usize>)
    ensures
        order@.len() == sizes@.len(),
        forall|k: int| 0 <= k < order@.len() ==> #[trigger] order@[k] < sizes@.len(),
        forall|a: int, b: int| 0 <= a < b < order@.len() ==> order@[a] != order@[b],
        forall|a: int, b: int|
            0 <= a < b < order@.len() ==> sizes@[order@[a] as int] >= sizes@[order@[b] as int],
{
    let mut order: Vec<usize> = Vec::new();
    let mut i: usize = 0;
    while i < sizes.len()
        invariant
            i <= sizes@.len(),
            order@.len() == i,
            forall|k: int| 0 <= k < order@.len() ==> #[trigger] order@[k] < i,
            forall|a: int, b: int| 0 <= a < b < order@.len() ==> order@[a] != order@[b],
            forall|a: int, b: int|
                0 <= a < b < order@.len() ==> sizes@[order@[a] as int] >= sizes@[order@[b] as int],
        decreases sizes@.len() - i,
    {
        let key = sizes[i];
        let mut lo: usize = 0;
        let mut hi: usize = order.len();
        while lo < hi
            invariant
                0 <= lo <= hi <= order@.len(),
                order@.len() == i,
                i < sizes@.len(),
                key == sizes@[i as int],
                forall|k: int| 0 <= k < order@.len() ==> #[trigger] order@[k] < i,
                forall|a: int, b: int|
                    0 <= a < b < order@.len() ==> sizes@[order@[a] as int] >= sizes@[order@[b] as int],
                forall|k: int| 0 <= k < lo ==> sizes@[(#[trigger] order@[k]) as int] >= key,
                forall|k: int| hi <= k < order@.len() ==> sizes@[(#[trigger] order@[k]) as int] < key,
            decreases hi - lo,
        {
            let mid = lo + (hi - lo) / 2;
            if sizes[order[mid]] >= key {
                lo = mid + 1;
            } else {
                hi = mid;
            }
        }
        let ghost before = order@;
        order.insert(lo, i);
        proof {
            assert forall|k: int| 0 <= k < order@.len() implies #[trigger] order@[k] < i + 1 by {
                if k < lo {
                    assert(order@[k] == before[k]);
                } else if k > lo {
                    assert(order@[k] == before[k - 1]);
                }
            }
            assert forall|a: int, b: int| 0 <= a < b < order@.len() implies order@[a] != order@[b]
                && sizes@[order@[a] as int] >= sizes@[order@[b] as int] by {
                if a < lo && b < lo {
                    assert(order@[a] == before[a] && order@[b] == before[b]);
                } else if a < lo && b == lo {
                    assert(order@[a] == before[a]);
                } else if a < lo {
                    assert(order@[a] == before[a] && order@[b] == before[b - 1]);
                } else if a == lo {
                    assert(order@[b] == before[b - 1]);
                } else {
                    assert(order@[a] == before[a - 1] && order@[b] == before[b - 1]);
                }
            }
        }
        i = i + 1;
    }
    order
}

/// Bytes of a container's memory to give back when a holder lets go of
/// it: all of them when it was the last holder of a container held in
/// memory, else none (a mapped container is not charged).
pub fn container_release(last_holder: bool, resident: bool, cpk_size: usize) -> (r: usize)
    ensures
        r == if last_holder && resident {
            cpk_size
        } else {
            0
        },
{
    if last_holder && resident {
        cpk_size
    } else {
        0
    }
}

/// The size below which a container is decrypted to memory rather than to
/// a mapped temporary file: half of each decryption worker's share of the
/// memory limit.
pub fn ram_threshold(memory: usize, decrypt_threads: usize) -> (r: usize)
    requires
        decrypt_threads > 0,
    ensures
        r == memory as int / decrypt_threads as int / 2,
{
    memory / decrypt_threads / 2
}

/// The indices of the work list, of length `count`, that decryption worker
/// `worker` of `workers` handles: `worker`, `worker + workers`, and so on,
/// up to the end of the list.
pub fn worker_share(count: usize, worker: usize, workers: usize) -> (r: Vec<usize>)
    requires
        worker < workers,
    ensures
        forall|k: int| 0 <= k < r@.len() ==> #[trigger] r@[k] == worker + k * workers && r@[k] < count,
        worker + r@.len() * workers >= count,
{
    let mut r: Vec<usize> = Vec::new();
    let mut i: usize = worker;
    assert(r@.len() * workers == 0) by (nonlinear_arith)
        requires
            r@.len() == 0,
    ;
    while i < count
        invariant
            worker < workers,
            i == worker + r@.len() * workers,
            forall|k: int| 0 <= k < r@.len() ==> #[trigger] r@[k] == worker + k * workers && r@[k] < count,
        decreases count - i,
    {
        r.push(i);
        proof {
            assert(worker + r@.len() * workers == i + workers) by (nonlinear_arith)
                requires
                    i == worker + (r@.len() - 1) * workers,
            ;
        }
        if count - i <= workers {
            return r;
        }
        i = i + workers;
    }
    r
}

/// Whether a container of `size` bytes is decrypted to memory.
pub fn decrypts_to_memory(size: u64, threshold: usize) -> (r: bool)
    ensures
        r == (size < threshold),
{
    size < threshold as u64
}

/// What the extractor does next.
#[derive(Debug, Clone, Copy, PartialEq, Eq, Structural)]
pub enum ExtractorAction {
    /// The container queue is closed and no member is left: stop.
    Exit,
    /// The container queue is closed: hand every queued member on, largest
    /// first, then stop.
    Drain,
    /// No member is queued: wait for the next container.
    WaitForContainer,
    /// Take a container if one is ready, else hand on the largest member.
    PollContainer,
}

/// The extractor's next step, from whether the container queue is closed
/// and whether members are queued.
pub fn extractor_action(queue_closed: bool, heap_empty: bool) -> (r: ExtractorAction)
    ensures
        queue_closed && heap_empty ==> r == ExtractorAction::Exit,
        queue_closed && !heap_empty ==> r == ExtractorAction::Drain,
        !queue_closed && heap_empty ==> r == ExtractorAction::WaitForContainer,
        !queue_closed && !heap_empty ==> r == ExtractorAction::PollContainer,
{
    if queue_closed {
        if heap_empty {
            ExtractorAction::Exit
        } else {
            ExtractorAction::Drain
        }
    } else if heap_empty {
        ExtractorAction::WaitForContainer
    } else {
        ExtractorAction::PollContainer
    }
}

/// Members ordered by extract size, smallest first.
pub open spec fn sorted_by_size(s: Seq<CpkFile>) -> bool {
    forall|i: int, j: int| 0 <= i < j < s.len() ==> s[i].extract_size <= s[j].extract_size
}

/// Queued members, handed out largest extract size first.
pub struct MemberQueue {
    members: Vec<CpkFile>,
}

impl MemberQueue {
    /// The queued members, smallest extract size first.
    pub closed spec fn queued(&self) -> Seq<CpkFile> {
        self.members@
    }

    pub open spec fn wf(&self) -> bool {
        sorted_by_size(self.queued())
    }

    pub fn new() -> (r: MemberQueue)
        ensures
            r.wf(),
            r.queued() == Seq::<CpkFile>::empty(),
    {
        MemberQueue { members: Vec::new() }
    }

    pub fn len(&self) -> (r: usize)
        ensures
            r == self.queued().len(),
    {
        self.members.len()
    }

    pub fn is_empty(&self) -> (r: bool)
        ensures
            r == (self.queued().len() == 0),
    {
        self.members.len() == 0
    }

    /// Queues a member.
    pub fn push(&mut self, member: CpkFile)
        requires
            old(self).wf(),
        ensures
            final(self).wf(),
            final(self).queued().to_multiset() == old(self).queued().to_multiset().insert(member),
    {
        let key = member.extract_size;
        let mut lo: usize = 0;
        let mut hi: usize = self.members.len();
        while lo < hi
            invariant
                self.wf(),
                self.queued() == old(self).queued(),
                0 <= lo <= hi <= self.members@.len(),
                forall|i: int| 0 <= i < lo ==> (#[trigger] self.members@[i]).extract_size <= key,
                forall|i: int|
                    hi <= i < self.members@.len() ==> (#[trigger] self.members@[i]).extract_size
                        > key,
            decreases hi - lo,
        {
            let mid = lo + (hi - lo) / 2;
            if self.members[mid].extract_size <= key {
                lo = mid + 1;
            } else {
                hi = mid;
            }
        }
        let ghost before = self.members@;
        self.members.insert(lo, member);
        proof {
            assert(self.members@ == before.insert(lo as int, member));
            assert(sorted_by_size(self.members@)) by {
                assert forall|i: int, j: int|
                    0 <= i < j < self.members@.len() implies self.members@[i].extract_size
                    <= self.members@[j].extract_size by {
                    if i < lo && j > lo {
                        assert(self.members@[i] == before[i]);
                        assert(self.members@[j] == before[j - 1]);
                    } else if i < lo && j == lo {
                        assert(self.members@[i] == before[i]);
                    } else if i == lo {
                        assert(self.members@[j] == before[j - 1]);
                    } else if i > lo {
                        assert(self.members@[i] == before[i - 1]);
                        assert(self.members@[j] == before[j - 1]);
                    } else {
                        assert(self.members@[i] == before[i]);
                        assert(self.members@[j] == before[j]);
                    }
                }
            }
            vstd::seq_lib::to_multiset_insert(before, lo as int, member);
        }
    }

    /// Takes out a member with the largest extract size; `None` when the
    /// queue is empty.
    pub fn pop(&mut self) -> (r: Option<CpkFile>)
        requires
            old(self).wf(),
        ensures
            final(self).wf(),
            old(self).queued().len() == 0 <==> r is None,
            r matches Some(m) ==> m == old(self).queued().last() && final(self).queued()
                == old(self).queued().drop_last() && forall|i: int|
                0 <= i < final(self).queued().len() ==> (#[trigger] final(self).queued()[i]).extract_size
                    <= m.extract_size,
            r is None ==> final(self).queued() == old(self).queued(),
    {
        let r = self.members.pop();
        proof {
            if r is Some {
                assert(self.members@ =~= old(self).queued().drop_last());
            }
        }
        r
    }
}

/// Whether the member named `file_name` is extracted: every member is when
/// nothing is selected, else only the selected names.
pub fn is_selected(selected: &Vec<String>, file_name: &String) -> (r: bool)
    ensures
        r == (selected@.len() == 0 || named_in(selected@, file_name@)),
{
    selected.len() == 0 || contains_name(selected, file_name)
}

} // verus!
