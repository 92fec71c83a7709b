use vstd::prelude::*;

use std::sync::atomic::{AtomicBool, Ordering};
use std::sync::Arc;

use crossbeam::channel::{Receiver, Sender};

use crate::channel::{
    bounded_channel, max_channel_capacity, offer, receive, try_publish, Offer,
};
use crate::digest::{digest_of, digest_width};
use crate::hash_type::HashType;
use crate::matcher::{
    alphabet_contains, alphabets, copy_bytes, get_message_count, in_domain, masked_match, saturate,
    suffix_combinations, PowSearchParameters,
};

verus! {

/// A subtree handed to a worker: a plaintext buffer filled up to a position, and that position.
pub type WorkItem = (Vec<u8>, usize);

/// `a` and `b` agree on their first `n` bytes.
pub open spec fn same_prefix(a: Seq<u8>, b: Seq<u8>, n: int) -> bool {
    forall|i: int| 0 <= i < n ==> #[trigger] a[i] == b[i]
}

/// Every byte of `c` before position `n` is taken from its position's alphabet.
pub open spec fn prefix_in_domain(map: Seq<Seq<u8>>, c: Seq<u8>, n: int) -> bool {
    forall|i: int| 0 <= i < n ==> #[trigger] map[i].contains(c[i])
}

/// What the coordinator makes of one offer: a reported match is taken if it
/// is one, an accepted subtree is done with, a closed channel breaks the search.
pub fn on_offer(params: &PowSearchParameters, o: Offer<Vec<u8>>) -> (r: Walk)
    requires
        params.wf(),
    ensures
        match o {
            Offer::Received(v) => if params.is_solution(v@) {
                r == Walk::Found(v)
            } else {
                r is Broken
            },
            Offer::Sent => r is Finished,
            Offer::Disconnected => r is Broken,
        },
{
    match o {
        Offer::Received(v) => {
            if params.is_solution_exec(v.as_slice()) {
                Walk::Found(v)
            } else {
                Walk::Broken
            }
        },
        Offer::Sent => Walk::Finished,
        Offer::Disconnected => Walk::Broken,
    }
}

/// In the order a walk visits plaintexts, `c` branches off before `v` at
/// position `i`: the two agree before `i`, and `c[i]` stands in that
/// position's alphabet before the first occurrence of `v[i]`.
pub open spec fn earlier_at(map: Seq<Seq<u8>>, c: Seq<u8>, v: Seq<u8>, i: int) -> bool {
    &&& same_prefix(c, v, i)
    &&& exists|k: int|
        0 <= k < map[i].len() && #[trigger] map[i][k] == c[i] && forall|m: int|
            0 <= m <= k ==> #[trigger] map[i][m] != v[i]
}

/// A walk from position `from` visits `c` before `v`.
pub open spec fn earlier_from(map: Seq<Seq<u8>>, c: Seq<u8>, v: Seq<u8>, from: int) -> bool {
    exists|i: int| from <= i < v.len() && #[trigger] earlier_at(map, c, v, i)
}

/// Every byte of `s` from position `p` on is zero.
pub open spec fn zero_from(s: Seq<u8>, p: int) -> bool {
    forall|i: int| p <= i < s.len() ==> #[trigger] s[i] == 0
}

/// A record of the subtrees offered to the workers: each prefix buffer with
/// the position up to which it is filled.
pub type OfferLog = Seq<(Seq<u8>, nat)>;

/// `a` starts with the entries of `b`.
pub open spec fn log_extends(a: OfferLog, b: OfferLog) -> bool {
    a.len() >= b.len() && forall|k: int| 0 <= k < b.len() ==> #[trigger] a[k] == b[k]
}

/// Some entry of `log` from index `from` on is a subtree that holds `c`.
pub open spec fn covered(log: OfferLog, from: int, c: Seq<u8>) -> bool {
    exists|k: int| from <= k < log.len() && #[trigger] same_prefix(c, log[k].0, log[k].1 as int)
}

/// `w` reports the empty plaintext.
pub open spec fn found_empty(w: Walk) -> bool {
    w matches Walk::Found(v) && v@ == Seq::<u8>::empty()
}

/// How a traversal of one subtree ended.
pub enum Walk {
    /// A plaintext that was found, or that a worker reported.
    Found(Vec<u8>),
    /// Every plaintext of the subtree was examined or handed to a worker.
    Finished,
    /// The cancellation flag was seen before the subtree was done.
    Stopped,
    /// A channel was found disconnected while work remained.
    Broken,
}

/// The two channel ends the coordinator uses to hand out work and hear of matches.
pub struct Dispatch {
    pub work: Sender<WorkItem>,
    pub results: Receiver<Vec<u8>>,
}

impl Dispatch {
    /// Closes the sending side, keeping the receiving one.
    fn into_results(self) -> Receiver<Vec<u8>> {
        self.results
    }
}

/// The depth-first traversal shared by the coordinator and every worker.
pub struct Traversal {
    pub parameter: PowSearchParameters,
    pub message_count: Vec<usize>,
    pub block_size: usize,
    pub search_end: Arc<AtomicBool>,
}

impl Traversal {
    pub open spec fn wf(&self) -> bool {
        &&& self.parameter.wf()
        &&& self.message_count@.len() == self.parameter.map().len()
        &&& self.parameter.plaintext_character_map@.len() == self.parameter.map().len()
        &&& forall|i: int|
            0 <= i < self.message_count@.len() ==> #[trigger] self.message_count@[i] == saturate(
                suffix_combinations(self.parameter.map(), i),
            )
    }

    pub fn new(parameter: PowSearchParameters, block_size: usize, search_end: Arc<AtomicBool>) -> (r: Traversal)
        requires
            parameter.wf(),
        ensures
            r.wf(),
            r.parameter == parameter,
            r.block_size == block_size,
    {
        let message_count = get_message_count(parameter.plaintext_character_map.as_slice());
        Traversal { parameter, message_count, block_size, search_end }
    }

    /// `item` is a subtree offered by a walk from `start` at `pos`: it lies
    /// below `start`'s prefix and is filled from the alphabets up to the first
    /// position from `pos` on whose suffix count is at most the block size.
    pub open spec fn offered_from(&self, item: (Seq<u8>, nat), start: Seq<u8>, pos: int) -> bool {
        &&& pos <= item.1 < start.len()
        &&& item.0.len() == start.len()
        &&& self.message_count@[item.1 as int] <= self.block_size
        &&& forall|q: int| pos <= q < item.1 ==> #[trigger] self.message_count@[q] > self.block_size
        &&& same_prefix(item.0, start, pos)
        &&& prefix_in_domain(self.parameter.map(), item.0, item.1 as int)
        &&& zero_from(start, pos) ==> zero_from(item.0, item.1 as int)
    }

    /// Explores every plaintext that agrees with `buf` before `pos`, in the
    /// order of the character map. With `dispatch`, a subtree of at most
    /// `block_size` leaves is offered to the workers instead, while a match
    /// they report is taken as soon as it arrives.
    /// Each subtree that a worker accepts is appended to `offered`.
    pub fn walk(
        &self,
        dispatch: Option<&Dispatch>,
        buf: &mut Vec<u8>,
        pos: usize,
        offered: &mut Ghost<OfferLog>,
    ) -> (r: Walk)
        requires
            self.wf(),
            old(buf)@.len() == self.parameter.map().len(),
            pos <= old(buf)@.len(),
            prefix_in_domain(self.parameter.map(), old(buf)@, pos as int),
        ensures
            final(buf)@.len() == old(buf)@.len(),
            same_prefix(final(buf)@, old(buf)@, pos as int),
            r matches Walk::Found(v) ==> self.parameter.is_solution(v@),
            dispatch is None ==> (r matches Walk::Found(v) ==> same_prefix(v@, old(buf)@, pos as int)),
            dispatch is None ==> !(r is Broken),
            dispatch is None ==> (r matches Walk::Found(v) ==> forall|c: Seq<u8>|
                #![trigger self.parameter.is_solution(c), earlier_from(self.parameter.map(), c, v@, pos as int)]
                in_domain(self.parameter.map(), c) && same_prefix(c, old(buf)@, pos as int)
                    && earlier_from(self.parameter.map(), c, v@, pos as int)
                    ==> !self.parameter.is_solution(c)),
            pos == old(buf)@.len() ==> (r is Found || r is Finished) && (r is Found
                <==> self.parameter.is_solution(old(buf)@)),
            pos == old(buf)@.len() ==> (r matches Walk::Found(v) ==> v@ == old(buf)@),
            (r is Finished || r is Stopped) && zero_from(old(buf)@, pos as int) ==> final(buf)@
                == old(buf)@,
            dispatch is None && r is Finished ==> forall|c: Seq<u8>|
                #![trigger self.parameter.is_solution(c)]
                in_domain(self.parameter.map(), c) && same_prefix(c, old(buf)@, pos as int)
                    ==> !self.parameter.is_solution(c),
            log_extends(final(offered)@, old(offered)@),
            dispatch is None ==> final(offered)@ == old(offered)@,
            forall|k: int|
                old(offered)@.len() <= k < final(offered)@.len() ==> #[trigger] self.offered_from(
                    final(offered)@[k],
                    old(buf)@,
                    pos as int,
                ),
            dispatch is Some && r is Finished ==> forall|c: Seq<u8>|
                #![trigger in_domain(self.parameter.map(), c)]
                in_domain(self.parameter.map(), c) && same_prefix(c, old(buf)@, pos as int)
                    ==> covered(final(offered)@, old(offered)@.len() as int, c)
                    || !self.parameter.is_solution(c),
        decreases old(buf)@.len() - pos,
    {
        let ghost map = self.parameter.map();
        let ghost start = buf@;
        let ghost log0 = offered@;
        let n = buf.len();
        if pos == n {
            assert(in_domain(map, start));
            let digest = self.parameter.hash_type.hash(buf.as_slice());
            if self.parameter.check_hash(digest.as_slice()) {
                let found = copy_bytes(buf.as_slice());
                return Walk::Found(found);
            }
            proof {
                assert forall|c: Seq<u8>|
                    #![trigger self.parameter.is_solution(c)]
                    in_domain(map, c) && same_prefix(c, start, pos as int) implies !self.parameter.is_solution(c) by {
                    assert(c =~= start);
                }
            }
            return Walk::Finished;
        }
        if dispatch.is_some() && self.message_count[pos] <= self.block_size {
            let d = dispatch.unwrap();
            let item: WorkItem = (copy_bytes(buf.as_slice()), pos);
            let r = on_offer(&self.parameter, offer(&d.results, &d.work, item));
            if matches!(r, Walk::Finished) {
                let ghost entry = (start, pos as nat);
                *offered = Ghost(offered@.push(entry));
                proof {
                    assert(self.offered_from(entry, start, pos as int));
                    assert forall|c: Seq<u8>|
                        #![trigger in_domain(map, c)]
                        in_domain(map, c) && same_prefix(c, start, pos as int) implies covered(
                        offered@,
                        log0.len() as int,
                        c,
                    ) by {
                        assert(offered@[log0.len() as int] == entry);
                        assert(same_prefix(c, offered@[log0.len() as int].0, offered@[log0.len() as int].1 as int));
                    }
                }
            }
            return r;
        }
        let alphabet = &self.parameter.plaintext_character_map[pos];
        assert(alphabet@ == map[pos as int]);
        let mut j: usize = 0;
        while j < alphabet.len()
            invariant
                self.wf(),
                map == self.parameter.map(),
                alphabet@ == map[pos as int],
                n == buf@.len(),
                n == map.len(),
                pos < n,
                start.len() == n,
                start == old(buf)@,
                prefix_in_domain(map, start, pos as int),
                0 <= j <= alphabet@.len(),
                same_prefix(buf@, start, pos as int),
                zero_from(start, pos as int) ==> zero_from(buf@, pos + 1),
                dispatch is None ==> forall|c: Seq<u8>|
                    #![trigger self.parameter.is_solution(c)]
                    in_domain(map, c) && same_prefix(c, start, pos as int)
                        && alphabet@.subrange(0, j as int).contains(c[pos as int])
                        ==> !self.parameter.is_solution(c),
                dispatch is Some ==> self.message_count@[pos as int] > self.block_size,
                log0 == old(offered)@,
                log_extends(offered@, log0),
                dispatch is None ==> offered@ == log0,
                forall|k: int|
                    log0.len() <= k < offered@.len() ==> #[trigger] self.offered_from(
                        offered@[k],
                        start,
                        pos as int,
                    ),
                dispatch is Some ==> forall|c: Seq<u8>|
                    #![trigger in_domain(map, c)]
                    in_domain(map, c) && same_prefix(c, start, pos as int)
                        && alphabet@.subrange(0, j as int).contains(c[pos as int])
                        ==> covered(offered@, log0.len() as int, c) || !self.parameter.is_solution(c),
            decreases alphabet@.len() - j,
        {
            let ghost before = buf@;
            buf.set(pos, alphabet[j]);
            let ghost mid = buf@;
            assert(prefix_in_domain(map, mid, pos + 1)) by {
                assert forall|i: int| 0 <= i < pos + 1 implies #[trigger] map[i].contains(mid[i]) by {
                    if i < pos {
                        assert(mid[i] == start[i]);
                    } else {
                        assert(map[i][j as int] == mid[i]);
                    }
                }
            }
            assert(zero_from(start, pos as int) ==> zero_from(mid, pos + 1)) by {
                if zero_from(start, pos as int) {
                    assert forall|i: int| pos + 1 <= i < mid.len() implies #[trigger] mid[i] == 0 by {
                        assert(mid[i] == before[i]);
                    }
                }
            }
            let ghost log1 = offered@;
            let r = self.walk(dispatch, buf, pos + 1, offered);
            proof {
                self.lemma_offers_lift(log0, log1, offered@, start, mid, pos as int);
            }
            assert(same_prefix(buf@, start, pos as int)) by {
                assert forall|i: int| 0 <= i < pos implies #[trigger] buf@[i] == start[i] by {
                    assert(buf@[i] == mid[i]);
                    assert(mid[i] == before[i]);
                }
            }
            match r {
                Walk::Finished => {},
                Walk::Stopped => {
                    let ghost after = buf@;
                    buf.set(pos, 0);
                    proof {
                        self.lemma_reset(start, after, buf@, pos as int);
                    }
                    return Walk::Stopped;
                },
                _ => {
                    proof {
                        if let Walk::Found(v) = &r {
                            if dispatch is None {
                                assert forall|i: int| 0 <= i < pos implies #[trigger] v@[i] == start[i] by {
                                    assert(v@[i] == mid[i]);
                                    assert(mid[i] == before[i]);
                                }
                                self.lemma_first_match(start, mid, v@, pos as int, j as int);
                            }
                        }
                    }
                    return r;
                },
            }
            proof {
                assert forall|c: Seq<u8>|
                    #![trigger self.parameter.is_solution(c)]
                    dispatch is None && in_domain(map, c) && same_prefix(c, start, pos as int)
                        && alphabet@.subrange(0, j + 1).contains(c[pos as int])
                        implies !self.parameter.is_solution(c) by {
                    let k = choose|k: int| 0 <= k < j + 1 && #[trigger] alphabet@.subrange(0, j + 1)[k] == c[pos as int];
                    if k == j {
                        assert(same_prefix(c, mid, pos + 1));
                    } else {
                        assert(alphabet@.subrange(0, j as int)[k] == c[pos as int]);
                    }
                }
                assert forall|c: Seq<u8>|
                    #![trigger in_domain(map, c)]
                    dispatch is Some && in_domain(map, c) && same_prefix(c, start, pos as int)
                        && alphabet@.subrange(0, j + 1).contains(c[pos as int])
                        implies covered(offered@, log0.len() as int, c) || !self.parameter.is_solution(c) by {
                    let k = choose|k: int| 0 <= k < j + 1 && #[trigger] alphabet@.subrange(0, j + 1)[k] == c[pos as int];
                    if !self.parameter.is_solution(c) {
                    } else if k == j {
                        assert(same_prefix(c, mid, pos + 1));
                        assert(covered(offered@, log1.len() as int, c));
                        let w = choose|w: int| log1.len() <= w < offered@.len() && #[trigger] same_prefix(c, offered@[w].0, offered@[w].1 as int);
                        assert(same_prefix(c, offered@[w].0, offered@[w].1 as int));
                    } else {
                        assert(alphabet@.subrange(0, j as int)[k] == c[pos as int]);
                        assert(covered(log1, log0.len() as int, c));
                        let w = choose|w: int| log0.len() <= w < log1.len() && #[trigger] same_prefix(c, log1[w].0, log1[w].1 as int);
                        assert(offered@[w] == log1[w]);
                        assert(same_prefix(c, offered@[w].0, offered@[w].1 as int));
                    }
                }
            }
            j = j + 1;
            if self.search_end.load(Ordering::Relaxed) {
                let ghost last = buf@;
                buf.set(pos, 0);
                proof {
                    self.lemma_reset(start, last, buf@, pos as int);
                }
                return Walk::Stopped;
            }
        }
        let ghost last = buf@;
        buf.set(pos, 0);
        proof {
            self.lemma_reset(start, last, buf@, pos as int);
            assert(alphabet@.subrange(0, j as int) =~= alphabet@);
        }
        Walk::Finished
    }

    /// What a walk one level down offered, relative to its own start, holds
    /// relative to the start of this level.
    proof fn lemma_offers_lift(
        &self,
        log0: OfferLog,
        log1: OfferLog,
        log2: OfferLog,
        start: Seq<u8>,
        mid: Seq<u8>,
        pos: int,
    )
        requires
            0 <= pos < start.len(),
            mid.len() == start.len(),
            same_prefix(mid, start, pos),
            zero_from(start, pos) ==> zero_from(mid, pos + 1),
            log2.len() > log1.len() ==> self.message_count@[pos] > self.block_size,
            log_extends(log1, log0),
            log_extends(log2, log1),
            forall|k: int| log0.len() <= k < log1.len() ==> #[trigger] self.offered_from(log1[k], start, pos),
            forall|k: int| log1.len() <= k < log2.len() ==> #[trigger] self.offered_from(log2[k], mid, pos + 1),
        ensures
            log_extends(log2, log0),
            forall|k: int| log0.len() <= k < log2.len() ==> #[trigger] self.offered_from(log2[k], start, pos),
    {
        assert forall|k: int| 0 <= k < log0.len() implies #[trigger] log2[k] == log0[k] by {
            assert(log1[k] == log0[k]);
        }
        assert forall|k: int| log0.len() <= k < log2.len() implies #[trigger] self.offered_from(log2[k], start, pos) by {
            if k < log1.len() {
                assert(log2[k] == log1[k]);
            } else {
                let item = log2[k];
                assert(self.offered_from(item, mid, pos + 1));
                assert forall|q: int| pos <= q < item.1 implies #[trigger] self.message_count@[q] > self.block_size by {
                    if q > pos {
                        assert(self.message_count@[q] > self.block_size);
                    }
                }
                assert forall|i: int| 0 <= i < pos implies #[trigger] item.0[i] == start[i] by {
                    assert(item.0[i] == mid[i]);
                }
            }
        }
    }

    /// A match found below sibling `j` at `pos` is the first one from `pos`:
    /// earlier siblings hold none, and the deeper walk found the first below `j`.
    proof fn lemma_first_match(&self, start: Seq<u8>, mid: Seq<u8>, v: Seq<u8>, pos: int, j: int)
        requires
            0 <= pos < start.len(),
            0 <= j < self.parameter.map()[pos].len(),
            mid.len() == start.len(),
            v.len() == start.len(),
            same_prefix(mid, start, pos),
            mid[pos] == self.parameter.map()[pos][j],
            same_prefix(v, mid, pos + 1),
            forall|c: Seq<u8>|
                #![trigger self.parameter.is_solution(c)]
                in_domain(self.parameter.map(), c) && same_prefix(c, start, pos)
                    && self.parameter.map()[pos].subrange(0, j).contains(c[pos])
                    ==> !self.parameter.is_solution(c),
            forall|c: Seq<u8>|
                #![trigger self.parameter.is_solution(c), earlier_from(self.parameter.map(), c, v, pos + 1)]
                in_domain(self.parameter.map(), c) && same_prefix(c, mid, pos + 1)
                    && earlier_from(self.parameter.map(), c, v, pos + 1)
                    ==> !self.parameter.is_solution(c),
        ensures
            forall|c: Seq<u8>|
                #![trigger self.parameter.is_solution(c), earlier_from(self.parameter.map(), c, v, pos)]
                in_domain(self.parameter.map(), c) && same_prefix(c, start, pos)
                    && earlier_from(self.parameter.map(), c, v, pos)
                    ==> !self.parameter.is_solution(c),
    {
        let map = self.parameter.map();
        assert forall|c: Seq<u8>|
            #![trigger self.parameter.is_solution(c), earlier_from(map, c, v, pos)]
            in_domain(map, c) && same_prefix(c, start, pos) && earlier_from(map, c, v, pos)
                implies !self.parameter.is_solution(c) by {
            let i = choose|i: int| pos <= i < v.len() && #[trigger] earlier_at(map, c, v, i);
            if i == pos {
                let k = choose|k: int|
                    0 <= k < map[i].len() && #[trigger] map[i][k] == c[i] && forall|m: int|
                        0 <= m <= k ==> #[trigger] map[i][m] != v[i];
                assert(v[pos] == mid[pos]);
                if j <= k {
                    assert(map[i][j] != v[i]);
                }
                assert(map[pos].subrange(0, j)[k] == c[pos]);
            } else {
                assert(c[pos] == v[pos]);
                assert forall|t: int| 0 <= t < pos + 1 implies #[trigger] c[t] == mid[t] by {
                    if t < pos {
                        assert(c[t] == start[t]);
                    } else {
                        assert(v[pos] == mid[pos]);
                    }
                }
                assert(same_prefix(c, mid, pos + 1));
                assert(earlier_from(map, c, v, pos + 1));
            }
        }
    }

    /// Clearing slot `pos` of a buffer that kept the prefix and whose later
    /// slots are clear brings back a start that was clear from `pos` on.
    proof fn lemma_reset(&self, start: Seq<u8>, last: Seq<u8>, cleared: Seq<u8>, pos: int)
        requires
            0 <= pos < start.len(),
            last.len() == start.len(),
            same_prefix(last, start, pos),
            zero_from(start, pos) ==> zero_from(last, pos + 1),
            cleared == last.update(pos, 0),
        ensures
            same_prefix(cleared, start, pos),
            zero_from(start, pos) ==> cleared == start,
    {
        assert(same_prefix(cleared, start, pos)) by {
            assert forall|i: int| 0 <= i < pos implies #[trigger] cleared[i] == start[i] by {
                assert(cleared[i] == last[i]);
            }
        }
        if zero_from(start, pos) {
            assert forall|i: int| 0 <= i < start.len() implies cleared[i] == start[i] by {
                if i < pos {
                    assert(cleared[i] == last[i]);
                } else if i == pos {
                } else {
                    assert(cleared[i] == last[i]);
                }
            }
            assert(cleared =~= start);
        }
    }
}

/// One thread of the pool: it exhausts each subtree it receives.
pub struct PowSearcherWorker {
    pub from_search_thread: Receiver<WorkItem>,
    pub to_search_thread: Sender<Vec<u8>>,
    pub traversal: Traversal,
}

/// Relies on `crossbeam::channel::Receiver::iter`: yields work items until the
/// channel is empty and every sender is gone; each goes to `process`.
#[verifier::external_body]
fn drain_work(worker: &PowSearcherWorker)
    requires
        worker.wf(),
{
    worker.from_search_thread.iter().for_each(|item| {
        worker.process(item);
    })
}

impl PowSearcherWorker {
    pub open spec fn wf(&self) -> bool {
        self.traversal.wf()
    }

    /// Whether `item` names a subtree of the search space.
    fn is_subtree(&self, item: &WorkItem) -> (r: bool)
        requires
            self.wf(),
        ensures
            r == (item.0@.len() == self.traversal.parameter.map().len() && item.1 <= item.0@.len()
                && prefix_in_domain(self.traversal.parameter.map(), item.0@, item.1 as int)),
    {
        let ghost map = self.traversal.parameter.map();
        let map_exec = &self.traversal.parameter.plaintext_character_map;
        let buf = &item.0;
        let pos = &item.1;
        if buf.len() != map_exec.len() || *pos > buf.len() {
            return false;
        }
        let mut i: usize = 0;
        while i < *pos
            invariant
                self.wf(),
                map == self.traversal.parameter.map(),
                map_exec == &self.traversal.parameter.plaintext_character_map,
                buf@.len() == map.len(),
                buf == &item.0,
                pos == &item.1,
                *pos <= buf@.len(),
                0 <= i <= *pos,
                prefix_in_domain(map, buf@, i as int),
            decreases *pos - i,
        {
            assert(map_exec@[i as int]@ == map[i as int]);
            if !alphabet_contains(&map_exec[i], buf[i]) {
                assert(!map[i as int].contains(item.0@[i as int]));
                assert(!prefix_in_domain(map, item.0@, item.1 as int));
                return false;
            }
            i = i + 1;
        }
        true
    }

    /// Exhausts the subtree of `item`. A match is offered to the coordinator
    /// and raises the cancellation flag.
    pub fn process(&self, item: WorkItem) -> (r: Walk)
        requires
            self.wf(),
        ensures
            r matches Walk::Found(v) ==> self.traversal.parameter.is_solution(v@),
            (r is Broken) <==> !(item.0@.len() == self.traversal.parameter.map().len() && item.1
                <= item.0@.len() && prefix_in_domain(
                self.traversal.parameter.map(),
                item.0@,
                item.1 as int,
            )),
            !(r is Broken) && item.1 == item.0@.len() ==> (r is Found || r is Finished) && (r is Found
                <==> self.traversal.parameter.is_solution(item.0@)),
            r matches Walk::Found(v) ==> same_prefix(v@, item.0@, item.1 as int),
            r is Finished ==> forall|c: Seq<u8>|
                #![trigger self.traversal.parameter.is_solution(c)]
                in_domain(self.traversal.parameter.map(), c) && same_prefix(c, item.0@, item.1 as int)
                    ==> !self.traversal.parameter.is_solution(c),
    {
        if !self.is_subtree(&item) {
            return Walk::Broken;
        }
        let (mut plaintext, pos) = item;
        let mut offered: Ghost<OfferLog> = Ghost(Seq::empty());
        let r = self.traversal.walk(None, &mut plaintext, pos, &mut offered);
        match r {
            Walk::Found(v) => {
                let reported = copy_bytes(v.as_slice());
                try_publish(&self.to_search_thread, reported);
                self.traversal.search_end.store(true, Ordering::Relaxed);
                Walk::Found(v)
            },
            _ => r,
        }
    }

    /// Serves work items until the coordinator closes the channel.
    pub fn search_thread(&self)
        requires
            self.wf(),
    {
        drain_work(self);
    }
}

/// The coordinator: it splits the search space and hands subtrees out.
pub struct PowSearcher {
    pub traversal: Traversal,
    pub dispatch: Dispatch,
}

impl PowSearcher {
    /// Runs the traversal from the empty prefix, closes the work channel,
    /// then waits for a match from the workers still running.
    pub fn run_search(self) -> (r: Walk)
        requires
            self.traversal.wf(),
        ensures
            !(r is Stopped),
            r matches Walk::Found(v) ==> self.traversal.parameter.is_solution(v@),
            self.traversal.parameter.map().len() == 0 && self.traversal.parameter.is_solution(
                Seq::empty(),
            ) ==> found_empty(r),
    {
        let PowSearcher { traversal, dispatch } = self;
        let n = traversal.parameter.plaintext_character_map.len();
        let mut plaintext = zeroed(n);
        assert(n == 0 ==> plaintext@ =~= Seq::<u8>::empty());
        let mut offered: Ghost<OfferLog> = Ghost(Seq::empty());
        let r = traversal.walk(Some(&dispatch), &mut plaintext, 0, &mut offered);
        let results = dispatch.into_results();
        let drained = match r {
            Walk::Found(_) | Walk::Broken => None,
            _ => receive(&results),
        };
        settle(&traversal.parameter, r, drained)
    }
}

/// A buffer of `n` zero bytes.
fn zeroed(n: usize) -> (r: Vec<u8>)
    ensures
        r@.len() == n,
        zero_from(r@, 0),
{
    let mut r: Vec<u8> = Vec::new();
    let mut i: usize = 0;
    while i < n
        invariant
            0 <= i <= n,
            r@.len() == i,
            zero_from(r@, 0),
        decreases n - i,
    {
        r.push(0);
        i = i + 1;
    }
    r
}

/// What the coordinator ends with, from the outcome of its walk and, where
/// the walk neither found a match nor broke, what draining the result
/// channel gave.
pub fn settle(params: &PowSearchParameters, walked: Walk, drained: Option<Vec<u8>>) -> (r: Walk)
    requires
        params.wf(),
    ensures
        match walked {
            Walk::Found(v) => r == Walk::Found(v),
            Walk::Broken => r is Broken,
            _ => match drained {
                None => r is Finished,
                Some(v) => if params.is_solution(v@) {
                    r == Walk::Found(v)
                } else {
                    r is Broken
                },
            },
        },
{
    match walked {
        Walk::Found(v) => Walk::Found(v),
        Walk::Broken => Walk::Broken,
        _ => match drained {
            None => Walk::Finished,
            Some(v) => {
                if params.is_solution_exec(v.as_slice()) {
                    Walk::Found(v)
                } else {
                    Walk::Broken
                }
            },
        },
    }
}

/// Everything one search call runs: the traversal, the pool size and both channels.
pub struct Pool {
    pub traversal: Traversal,
    pub thread_count: usize,
    pub work_tx: Sender<WorkItem>,
    pub work_rx: Receiver<WorkItem>,
    pub result_tx: Sender<Vec<u8>>,
    pub result_rx: Receiver<Vec<u8>>,
}

/// Relies on crossbeam's `Scope::builder` and `ScopedThreadBuilder::spawn`:
/// starts a thread of the scope that serves work items; false when the
/// thread could not be started.
#[verifier::external_body]
fn spawn_worker<'env>(scope: &crossbeam::thread::Scope<'env>, worker: PowSearcherWorker) -> bool
    requires
        worker.wf(),
{
    scope.builder().spawn(move |_| worker.search_thread()).is_ok()
}

/// Relies on `crossbeam::thread::scope`: runs the pool on the calling thread,
/// then joins every thread it started; `None` when one of them panicked, else
/// what `Pool::run` returned, of which its own `ensures` are restated.
#[verifier::external_body]
fn run_scoped(pool: Pool) -> (r: Option<Walk>)
    requires
        pool.wf(),
    ensures
        r matches Some(w) ==> !(w is Stopped) && (w matches Walk::Found(v)
            ==> pool.traversal.parameter.is_solution(v@)) && (pool.traversal.parameter.map().len()
            == 0 && pool.traversal.parameter.is_solution(Seq::empty()) ==> found_empty(w)),
{
    crossbeam::thread::scope(|s| pool.run(s)).ok()
}

/// Starts `count` workers that share the two given channel ends, then lets go of them.
fn spawn_workers<'env>(
    scope: &crossbeam::thread::Scope<'env>,
    traversal: &Traversal,
    count: usize,
    work_rx: Receiver<WorkItem>,
    result_tx: Sender<Vec<u8>>,
)
    requires
        traversal.wf(),
{
    let mut i: usize = 0;
    while i < count
        invariant
            traversal.wf(),
            0 <= i <= count,
        decreases count - i,
    {
        let worker = PowSearcherWorker {
            from_search_thread: work_rx.clone(),
            to_search_thread: result_tx.clone(),
            traversal: Traversal::new(
                traversal.parameter.duplicate(),
                traversal.block_size,
                traversal.search_end.clone(),
            ),
        };
        spawn_worker(scope, worker);
        i = i + 1;
    }
}

impl Pool {
    pub open spec fn wf(&self) -> bool {
        self.traversal.wf()
    }

    /// Starts the workers, then runs the coordinator on this thread.
    pub fn run<'env>(self, scope: &crossbeam::thread::Scope<'env>) -> (r: Walk)
        requires
            self.wf(),
        ensures
            !(r is Stopped),
            r matches Walk::Found(v) ==> self.traversal.parameter.is_solution(v@),
            self.traversal.parameter.map().len() == 0 && self.traversal.parameter.is_solution(
                Seq::empty(),
            ) ==> found_empty(r),
    {
        let Pool { traversal, thread_count, work_tx, work_rx, result_tx, result_rx } = self;
        spawn_workers(scope, &traversal, thread_count, work_rx, result_tx);
        let searcher = PowSearcher { traversal, dispatch: Dispatch { work: work_tx, results: result_rx } };
        searcher.run_search()
    }
}

/// How many workers a search starts when the configuration names no count.
/// The library cannot ask the host for its parallelism; a host that wants
/// one worker per hardware thread sets `thread_count` itself.
pub const DEFAULT_THREAD_COUNT: usize = 2;

/// How a search runs: the pool size, and a flag that stops it from outside.
/// With no `thread_count`, `DEFAULT_THREAD_COUNT` workers run, not the host's
/// parallelism.
#[derive(Debug, Default, Clone)]
pub struct ThreadConfig {
    pub thread_count: Option<usize>,
    pub cancel: Option<Arc<AtomicBool>>,
}

/// The outcome of one search call.
#[derive(Debug, Clone, PartialEq, Eq)]
pub enum SearchResult {
    Found(Vec<u8>),
    NotFound,
    UnexpectedError,
    InvalidTargetHashLength,
    InvalidTargetHashMaskLength,
}

/// The thread counts a search accepts: each channel is bounded by it.
pub open spec fn valid_thread_config(thread_config: &ThreadConfig) -> bool {
    thread_config.thread_count matches Some(n) ==> n <= max_channel_capacity()
}

/// Turns what the pool ended with into the search's outcome. A reported
/// plaintext is checked once more before it is returned, so that `Found`
/// does not rest on the trusted contract of the thread scope alone.
pub fn finish(params: &PowSearchParameters, outcome: Option<Walk>) -> (r: SearchResult)
    requires
        params.wf(),
    ensures
        match outcome {
            Some(Walk::Found(v)) => if params.is_solution(v@) {
                r == SearchResult::Found(v)
            } else {
                r == SearchResult::UnexpectedError
            },
            Some(Walk::Finished) | Some(Walk::Stopped) => r == SearchResult::NotFound,
            Some(Walk::Broken) | None => r == SearchResult::UnexpectedError,
        },
{
    match outcome {
        Some(Walk::Found(v)) => {
            if params.is_solution_exec(v.as_slice()) {
                SearchResult::Found(v)
            } else {
                SearchResult::UnexpectedError
            }
        },
        Some(Walk::Finished) | Some(Walk::Stopped) => SearchResult::NotFound,
        Some(Walk::Broken) | None => SearchResult::UnexpectedError,
    }
}

/// Searches the character map for a plaintext whose digest matches the
/// target under the mask, with a pool of worker threads. Target and mask
/// are checked against the algorithm's width before any thread starts.
/// With one worker the walk runs on the calling thread and returns the
/// first match in depth-first order; with no count, `DEFAULT_THREAD_COUNT`
/// workers run.
pub fn search(params: PowSearchParameters, thread_config: &ThreadConfig) -> (r: SearchResult)
    requires
        valid_thread_config(thread_config),
    ensures
        (r is InvalidTargetHashLength) == (params.target_hash@.len() != digest_width(params.hash_type)),
        (r is InvalidTargetHashMaskLength) == (params.target_hash@.len() == digest_width(params.hash_type)
            && params.target_hash_mask@.len() != digest_width(params.hash_type)),
        r matches SearchResult::Found(v) ==> params.is_solution(v@),
        params.wf() && params.map().len() == 0 && params.is_solution(Seq::empty()) ==> (r
            matches SearchResult::Found(v) && v@ == Seq::<u8>::empty()) || r is UnexpectedError,
        params.wf() && thread_config.thread_count == Some(1usize) ==> r is Found || r is NotFound,
        thread_config.thread_count == Some(1usize) ==> (r matches SearchResult::Found(v)
            ==> forall|c: Seq<u8>|
            #![trigger params.is_solution(c), earlier_from(params.map(), c, v@, 0)]
            in_domain(params.map(), c) && earlier_from(params.map(), c, v@, 0)
                ==> !params.is_solution(c)),
{
    let width = params.hash_type.hash_bytes();
    if params.target_hash.len() != width {
        return SearchResult::InvalidTargetHashLength;
    }
    if params.target_hash_mask.len() != width {
        return SearchResult::InvalidTargetHashMaskLength;
    }
    let thread_count = match thread_config.thread_count {
        Some(n) => n,
        None => DEFAULT_THREAD_COUNT,
    };
    let search_end = match &thread_config.cancel {
        Some(flag) => flag.clone(),
        None => Arc::new(AtomicBool::new(false)),
    };
    let block_size = params.hash_type.parallel_block_size();
    let checker = params.duplicate();
    if thread_count == 1 {
        // One worker: the whole space is walked on this thread, in order.
        let traversal = Traversal::new(params, block_size, search_end);
        let mut plaintext = zeroed(traversal.parameter.plaintext_character_map.len());
        let mut offered: Ghost<OfferLog> = Ghost(Seq::empty());
        let walked = traversal.walk(None, &mut plaintext, 0, &mut offered);
        let r = finish(&checker, Some(walked));
        proof {
            if let SearchResult::Found(v) = &r {
                assert forall|c: Seq<u8>|
                    #![trigger params.is_solution(c), earlier_from(params.map(), c, v@, 0)]
                    in_domain(params.map(), c) && earlier_from(params.map(), c, v@, 0)
                        implies !params.is_solution(c) by {
                    assert(same_prefix(c, plaintext@, 0));
                    assert(traversal.parameter.is_solution(c) == params.is_solution(c));
                }
            }
        }
        return r;
    }
    let (work_tx, work_rx) = bounded_channel(thread_count);
    let (result_tx, result_rx) = bounded_channel(thread_count);
    let pool = Pool {
        traversal: Traversal::new(params, block_size, search_end),
        thread_count,
        work_tx,
        work_rx,
        result_tx,
        result_rx,
    };
    let outcome = run_scoped(pool);
    let r = finish(&checker, outcome);
    proof {
        if let SearchResult::Found(v) = &r {
            assert(checker.is_solution(v@));
        }
    }
    r
}

/// Searches with the algorithm `hash_type`, taking target, mask and
/// character map as plain bytes.
pub fn search_by_hash_type(
    hash_type: HashType,
    target_hash: &[u8],
    target_hash_mask: &[u8],
    plaintext_character_map: &[Vec<u8>],
    thread_config: &ThreadConfig,
) -> (r: SearchResult)
    requires
        valid_thread_config(thread_config),
    ensures
        (r is InvalidTargetHashLength) == (target_hash@.len() != digest_width(hash_type)),
        (r is InvalidTargetHashMaskLength) == (target_hash@.len() == digest_width(hash_type)
            && target_hash_mask@.len() != digest_width(hash_type)),
        r matches SearchResult::Found(v) ==> in_domain(alphabets(plaintext_character_map@), v@)
            && masked_match(digest_of(hash_type, v@), target_hash@, target_hash_mask@),
        thread_config.thread_count == Some(1usize) && target_hash@.len() == digest_width(hash_type)
            && target_hash_mask@.len() == digest_width(hash_type) ==> r is Found || r is NotFound,
        thread_config.thread_count == Some(1usize) ==> (r matches SearchResult::Found(v)
            ==> forall|c: Seq<u8>|
            #![trigger earlier_from(alphabets(plaintext_character_map@), c, v@, 0)]
            in_domain(alphabets(plaintext_character_map@), c) && earlier_from(
                alphabets(plaintext_character_map@),
                c,
                v@,
                0,
            ) ==> !masked_match(digest_of(hash_type, c), target_hash@, target_hash_mask@)),
{
    let mut map: Vec<Vec<u8>> = Vec::new();
    let mut i: usize = 0;
    while i < plaintext_character_map.len()
        invariant
            0 <= i <= plaintext_character_map@.len(),
            map@.len() == i,
            forall|k: int| 0 <= k < i ==> #[trigger] map@[k]@ == plaintext_character_map@[k]@,
        decreases plaintext_character_map@.len() - i,
    {
        map.push(copy_bytes(plaintext_character_map[i].as_slice()));
        i = i + 1;
    }
    assert(alphabets(map@) =~= alphabets(plaintext_character_map@));
    let params = PowSearchParameters {
        hash_type,
        target_hash: copy_bytes(target_hash),
        target_hash_mask: copy_bytes(target_hash_mask),
        plaintext_character_map: map,
    };
    let ghost snapshot = params;
    let r = search(params, thread_config);
    proof {
        if let SearchResult::Found(v) = &r {
            if thread_config.thread_count == Some(1usize) {
                assert forall|c: Seq<u8>|
                    #![trigger earlier_from(alphabets(plaintext_character_map@), c, v@, 0)]
                    in_domain(alphabets(plaintext_character_map@), c) && earlier_from(
                        alphabets(plaintext_character_map@),
                        c,
                        v@,
                        0,
                    ) implies !masked_match(digest_of(hash_type, c), target_hash@, target_hash_mask@) by {
                    assert(earlier_from(snapshot.map(), c, v@, 0));
                    assert(!snapshot.is_solution(c));
                }
            }
        }
    }
    r
}

} // verus!
