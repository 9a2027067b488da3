//! Sending events in batches: how they are cut, which batch is sent next, and what the answers come
//! to.
use std::collections::VecDeque;

use vstd::prelude::*;

use crate::splunk_http_sender::{is_config_error, SplunkError};

verus! {

// ===== Cutting =====

/// Items in batches of a size; the last batch may be smaller.
pub open spec fn chunks_of<T>(items: Seq<T>, size: nat) -> Seq<Seq<T>>
    decreases items.len(),
{
    if items.len() == 0 || size == 0 {
        Seq::empty()
    } else if items.len() <= size {
        seq![items]
    } else {
        seq![items.take(size as int)] + chunks_of(items.skip(size as int), size)
    }
}

/// Batches as sequences.
pub open spec fn batches<T>(chunks: Seq<Vec<T>>) -> Seq<Seq<T>> {
    chunks.map_values(|c: Vec<T>| c@)
}

proof fn chunks_step<T>(items: Seq<T>, size: nat)
    requires
        0 < size <= items.len(),
    ensures
        chunks_of(items, size) == seq![items.take(size as int)] + chunks_of(
            items.skip(size as int),
            size,
        ),
{
    if items.len() == size {
        assert(items.take(size as int) =~= items);
        assert(items.skip(size as int) =~= Seq::empty());
        assert(seq![items] + chunks_of(items.skip(size as int), size) =~= seq![items]);
    }
}

/// Cuts items into batches of a size.
fn chunked<T>(items: Vec<T>, size: usize) -> (r: Vec<Vec<T>>)
    requires
        size > 0,
    ensures
        batches(r@) == chunks_of(items@, size as nat),
{
    let ghost all = items@;
    let mut out: Vec<Vec<T>> = Vec::new();
    let mut current: Vec<T> = Vec::new();
    let ghost mut start: int = 0;
    proof {
        assert(all.skip(0) =~= all);
        assert(batches(out@) + chunks_of(all.skip(0), size as nat) =~= chunks_of(
            all,
            size as nat,
        ));
    }
    for item in it: items
        invariant
            it.seq() == all,
            size > 0,
            0 <= start <= all.len(),
            it.index() == start + current@.len(),
            current@.len() < size,
            current@ == all.skip(start).take(current@.len() as int),
            batches(out@) + chunks_of(all.skip(start), size as nat) == chunks_of(all, size as nat),
    {
        let ghost i = it.index();
        assert(item == all[i]);
        current.push(item);
        assert(current@ =~= all.skip(start).take(current@.len() as int));
        if current.len() == size {
            let ghost rest = all.skip(start);
            let ghost done = batches(out@);
            let mut full: Vec<T> = Vec::new();
            std::mem::swap(&mut full, &mut current);
            out.push(full);
            proof {
                chunks_step(rest, size as nat);
                assert(rest.skip(size as int) =~= all.skip(start + size));
                assert(batches(out@) =~= done.push(rest.take(size as int)));
                assert(batches(out@) + chunks_of(all.skip(start + size), size as nat) =~= done + (
                seq![rest.take(size as int)] + chunks_of(rest.skip(size as int), size as nat)));
                start = start + size;
                assert(current@ =~= all.skip(start).take(0));
            }
        }
    }
    let ghost rest = all.skip(start);
    let ghost done = batches(out@);
    proof {
        assert(current@ =~= rest);
    }
    if current.len() > 0 {
        out.push(current);
        assert(batches(out@) =~= done + chunks_of(rest, size as nat));
    } else {
        assert(batches(out@) =~= done + chunks_of(rest, size as nat));
    }
    out
}

/// Batches hold all items in order, none of them is empty or larger than the size, and only the
/// last may be smaller.
pub proof fn batches_hold_everything<T>(items: Seq<T>, size: nat)
    requires
        size > 0,
    ensures
        chunks_of(items, size).flatten() == items,
        forall|i: int|
            0 <= i < chunks_of(items, size).len() ==> 1 <= (#[trigger] chunks_of(items, size)[i]).len()
                <= size,
        forall|i: int|
            0 <= i < chunks_of(items, size).len() - 1 ==> (#[trigger] chunks_of(items, size)[i]).len()
                == size,
    decreases items.len(),
{
    let chunks = chunks_of(items, size);
    if items.len() == 0 {
        assert(chunks.flatten() =~= items);
    } else if items.len() <= size {
        assert(chunks.drop_first() =~= Seq::empty());
        assert(chunks.drop_first().flatten() =~= Seq::empty());
        assert(chunks.flatten() =~= items);
    } else {
        let rest = items.skip(size as int);
        batches_hold_everything(rest, size);
        assert(chunks.first() == items.take(size as int));
        assert(chunks.drop_first() =~= chunks_of(rest, size));
        assert(chunks.flatten() =~= items.take(size as int) + rest);
        assert(items.take(size as int) + rest =~= items);
        assert forall|i: int| 0 <= i < chunks.len() implies 1 <= (#[trigger] chunks[i]).len()
            <= size by {
            if i > 0 {
                assert(chunks[i] == chunks_of(rest, size)[i - 1]);
            }
        }
        assert forall|i: int| 0 <= i < chunks.len() - 1 implies (#[trigger] chunks[i]).len()
            == size by {
            if i > 0 {
                assert(chunks[i] == chunks_of(rest, size)[i - 1]);
            }
        }
    }
}

// ===== Sending =====

/// Answers with their bodies as texts.
pub open spec fn answer_texts(answers: Seq<(u16, String)>) -> Seq<(u16, Seq<char>)> {
    answers.map_values(|a: (u16, String)| (a.0, a.1@))
}

/// What came back for a batch: a status and a body, or an error.
pub type Reply = Result<(u16, String), SplunkError>;

/// How far sending batches has come.
pub enum Progress<T, H> {
    /// This batch is to be sent there. Those that wait come after it, and the ones before it were
    /// answered.
    Sending { to: H, batch: Seq<T>, waiting: Seq<Seq<T>>, answers: Seq<(u16, Seq<char>)> },
    /// All batches were answered.
    Answered(Seq<(u16, Seq<char>)>),
    /// A batch was not answered, or not with success.
    Failed(SplunkError),
}

/// What comes next where some batches wait and some were answered.
pub open spec fn next_progress<T, H>(
    to: H,
    waiting: Seq<Seq<T>>,
    answers: Seq<(u16, Seq<char>)>,
) -> Progress<T, H> {
    if waiting.len() == 0 {
        Progress::Answered(answers)
    } else {
        Progress::Sending { to, batch: waiting.first(), waiting: waiting.drop_first(), answers }
    }
}

/// What comes next once a batch has its reply: an error ends the sending.
pub open spec fn after_reply<T, H>(progress: Progress<T, H>, reply: Reply) -> Progress<T, H> {
    match progress {
        Progress::Sending { to, batch, waiting, answers } => match reply {
            Ok((status, body)) => next_progress(to, waiting, answers.push((status, body@))),
            Err(e) => Progress::Failed(e),
        },
        _ => progress,
    }
}

/// How far sending batches has come after some replies.
pub open spec fn after_replies<T, H>(
    to: H,
    batches: Seq<Seq<T>>,
    replies: Seq<Reply>,
) -> Progress<T, H>
    decreases replies.len(),
{
    if replies.len() == 0 {
        next_progress(to, batches, Seq::empty())
    } else {
        after_reply(after_replies(to, batches, replies.drop_last()), replies.last())
    }
}

/// Where the batches go, those that wait, and the answers so far.
pub struct BatchRun<T, H> {
    to: H,
    waiting: VecDeque<Vec<T>>,
    answers: Vec<(u16, String)>,
}

/// What is to be done next.
pub enum BatchStep<T, H> {
    /// Send this batch, and go on with its reply.
    Send { batch: Vec<T>, run: BatchRun<T, H> },
    /// Nothing more is to be sent: all answers in the order of their batches, or the error.
    Finished(Result<Vec<(u16, String)>, SplunkError>),
}

impl<T, H> View for BatchStep<T, H> {
    type V = Progress<T, H>;

    open spec fn view(&self) -> Progress<T, H> {
        match *self {
            BatchStep::Send { batch, run } => Progress::Sending {
                to: run.goes_to(),
                batch: batch@,
                waiting: run.batches_left(),
                answers: run.answers_so_far(),
            },
            BatchStep::Finished(Ok(answers)) => Progress::Answered(answer_texts(answers@)),
            BatchStep::Finished(Err(e)) => Progress::Failed(e),
        }
    }
}

impl<T, H> BatchRun<T, H> {
    /// Where and how the batches are sent.
    pub closed spec fn goes_to(self) -> H {
        self.to
    }

    /// Where and how the batches are sent.
    pub fn target(&self) -> (r: &H)
        ensures
            *r == self.goes_to(),
    {
        &self.to
    }

    /// The batches that wait.
    pub closed spec fn batches_left(self) -> Seq<Seq<T>> {
        batches(self.waiting@)
    }

    /// The answers to the batches that were sent.
    pub closed spec fn answers_so_far(self) -> Seq<(u16, Seq<char>)> {
        answer_texts(self.answers@)
    }

    /// The next batch, or all answers where none is left.
    fn next(self) -> (r: BatchStep<T, H>)
        ensures
            r@ == next_progress(self.goes_to(), self.batches_left(), self.answers_so_far()),
    {
        let mut waiting = self.waiting;
        match waiting.pop_front() {
            Some(batch) => {
                assert(batches(waiting@) =~= self.batches_left().drop_first());
                BatchStep::Send { batch, run: BatchRun { to: self.to, waiting, answers: self.answers } }
            },
            None => BatchStep::Finished(Ok(self.answers)),
        }
    }

    /// Goes on with the reply to the batch that was sent: an error ends the sending, and any other
    /// reply is the answer to that batch.
    pub fn resume(self, reply: Reply) -> (r: BatchStep<T, H>)
        ensures
            r@ == (match reply {
                Ok((status, body)) => next_progress(
                    self.goes_to(),
                    self.batches_left(),
                    self.answers_so_far().push((status, body@)),
                ),
                Err(e) => Progress::Failed(e),
            }),
            forall|batch: Seq<T>|
                r@ == #[trigger] after_reply(
                    Progress::Sending {
                        to: self.goes_to(),
                        batch,
                        waiting: self.batches_left(),
                        answers: self.answers_so_far(),
                    },
                    reply,
                ),
    {
        let answer = match reply {
            Ok(answer) => answer,
            Err(e) => {
                return BatchStep::Finished(Err(e));
            },
        };
        let ghost before = self.answers@;
        let mut answers = self.answers;
        answers.push(answer);
        assert(answer_texts(answers@) =~= answer_texts(before).push((answer.0, answer.1@)));
        let run = BatchRun { to: self.to, waiting: self.waiting, answers };
        run.next()
    }
}

/// What beginning to send events in batches comes to, where they are sent in that way.
pub open spec fn is_batched<T, H>(
    events: Seq<T>,
    batch_size: nat,
    to: H,
    r: Result<BatchStep<T, H>, SplunkError>,
) -> bool {
    if batch_size == 0 {
        r is Err && is_config_error(r->Err_0, "batch_size must be greater than 0"@)
    } else {
        r is Ok && r->Ok_0@ == next_progress(to, chunks_of(events, batch_size), Seq::empty())
    }
}

/// Cuts events into batches and begins to send them; batches of zero events are an error.
pub fn begin_batches<T, H>(events: Vec<T>, batch_size: usize, to: H) -> (r: Result<
    BatchStep<T, H>,
    SplunkError,
>)
    ensures
        is_batched(events@, batch_size as nat, to, r),
{
    if batch_size == 0 {
        return Err(SplunkError::ConfigError("batch_size must be greater than 0".to_string()));
    }
    let chunks = chunked(events, batch_size);
    let ghost all = chunks@;
    let mut waiting: VecDeque<Vec<T>> = VecDeque::new();
    for batch in it: chunks
        invariant
            it.seq() == all,
            waiting@ == all.take(it.index()),
    {
        let ghost i = it.index();
        waiting.push_back(batch);
        assert(all.take(i + 1) =~= all.take(i).push(all[i]));
    }
    assert(waiting@ =~= all);
    let run = BatchRun { to, waiting, answers: Vec::new() };
    assert(run.answers_so_far() =~= Seq::empty());
    Ok(run.next())
}

// ===== Laws =====

/// As long as batches are answered with success, the next one in order is sent, and in the same way;
/// once all are, the answers come in the order of the batches. Where there are no batches nothing is sent.
pub proof fn batches_are_sent_in_order<T, H>(to: H, batches: Seq<Seq<T>>, replies: Seq<Reply>)
    requires
        replies.len() <= batches.len(),
        forall|i: int| 0 <= i < replies.len() ==> (#[trigger] replies[i]) is Ok,
    ensures
        ({
            let answers = Seq::new(
                replies.len(),
                |i: int| (replies[i]->Ok_0.0, replies[i]->Ok_0.1@),
            );
            after_replies(to, batches, replies) == (if replies.len() < batches.len() {
                Progress::Sending {
                    to,
                    batch: batches[replies.len() as int],
                    waiting: batches.skip(replies.len() as int + 1),
                    answers,
                }
            } else {
                Progress::Answered(answers)
            })
        }),
    decreases replies.len(),
{
    let answers = Seq::new(replies.len(), |i: int| (replies[i]->Ok_0.0, replies[i]->Ok_0.1@));
    if replies.len() == 0 {
        assert(answers =~= Seq::empty());
        if batches.len() > 0 {
            assert(batches.drop_first() =~= batches.skip(1));
        }
    } else {
        let fewer = replies.drop_last();
        batches_are_sent_in_order(to, batches, fewer);
        let earlier = Seq::new(fewer.len(), |i: int| (fewer[i]->Ok_0.0, fewer[i]->Ok_0.1@));
        let waiting = batches.skip(fewer.len() as int + 1);
        assert(answers =~= earlier.push((replies.last()->Ok_0.0, replies.last()->Ok_0.1@)));
        assert(after_replies(to, batches, replies) == next_progress(to, waiting, answers));
        if waiting.len() > 0 {
            assert(waiting.drop_first() =~= batches.skip(replies.len() as int + 1));
        }
    }
}

/// The first error ends the sending: it is what the sending comes to, and no batch after it is
/// sent, whatever was answered before.
pub proof fn first_error_ends_the_sending<T, H>(
    to: H,
    batches: Seq<Seq<T>>,
    replies: Seq<Reply>,
    error: SplunkError,
)
    requires
        replies.len() < batches.len(),
        forall|i: int| 0 <= i < replies.len() ==> (#[trigger] replies[i]) is Ok,
    ensures
        after_replies(to, batches, replies.push(Err(error))) == Progress::<T, H>::Failed(error),
{
    batches_are_sent_in_order(to, batches, replies);
    let all = replies.push(Err(error));
    assert(all.drop_last() =~= replies);
    assert(all.last() == Reply::Err(error));
}

} // verus!
