//! Kraken WebSocket sequence validation: gap detection, duplicate and
//! late-event rejection.
use vstd::prelude::*;

verus! {

/// Why a message was refused by a [`SequenceValidator`].
#[derive(Debug, Clone, Copy, PartialEq, Eq, Structural)]
pub enum ValidationError {
    Gap { expected: u64, got: u64 },
    LateEvent { max_lateness_ms: u64, lateness_ms: u64 },
    Duplicate { seq: u64 },
}

/// The abstract state of a [`SequenceValidator`].
pub struct ValidatorState {
    pub last_seq: Option<u64>,
    pub last_processed_time: Option<u64>,
    pub dropped: u64,
    pub gaps: u64,
    pub max_lateness_ms: u64,
}

/// Tracks the last accepted sequence number and timestamp of a feed.
#[derive(Debug, Clone)]
pub struct SequenceValidator {
    last_seq: Option<u64>,
    last_processed_time: Option<u64>,
    dropped: u64,
    gaps: u64,
    max_lateness_ms: u64,
}

impl View for SequenceValidator {
    type V = ValidatorState;

    closed spec fn view(&self) -> ValidatorState {
        ValidatorState {
            last_seq: self.last_seq,
            last_processed_time: self.last_processed_time,
            dropped: self.dropped,
            gaps: self.gaps,
            max_lateness_ms: self.max_lateness_ms,
        }
    }
}

/// `x + 1`, saturating at `u64::MAX`.
pub open spec fn sat_inc(x: u64) -> u64 {
    if x == u64::MAX { x } else { (x + 1) as u64 }
}

/// Whether `validate(seq, ts)` can run on state `s` without an arithmetic
/// overflow: a sequence number that follows `u64::MAX` does not exist.
pub open spec fn validate_defined(s: ValidatorState, seq: u64) -> bool {
    s.last_seq != Some(u64::MAX) || seq == u64::MAX
}

/// The result of `validate(seq, ts)` on state `s`.
pub open spec fn validate_result(s: ValidatorState, seq: u64, ts: u64) -> Result<(), ValidationError> {
    match s.last_seq {
        Some(last) if seq == last => Err(ValidationError::Duplicate { seq }),
        Some(last) if seq != last + 1 => Err(ValidationError::Gap { expected: (last + 1) as u64, got: seq }),
        _ => match s.last_processed_time {
            Some(last_ts) if ts < last_ts && (last_ts - ts) > s.max_lateness_ms =>
                Err(ValidationError::LateEvent { max_lateness_ms: s.max_lateness_ms, lateness_ms: (last_ts - ts) as u64 }),
            _ => Ok(()),
        },
    }
}

/// The state after `validate(seq, ts)` on state `s`.
pub open spec fn validate_next(s: ValidatorState, seq: u64, ts: u64) -> ValidatorState {
    match validate_result(s, seq, ts) {
        Ok(()) => ValidatorState { last_seq: Some(seq), last_processed_time: Some(ts), ..s },
        Err(ValidationError::Gap { .. }) => ValidatorState { gaps: sat_inc(s.gaps), ..s },
        Err(ValidationError::LateEvent { .. }) => ValidatorState { dropped: sat_inc(s.dropped), ..s },
        Err(ValidationError::Duplicate { .. }) => s,
    }
}

impl Default for SequenceValidator {
    fn default() -> (v: Self)
        ensures
            v@.last_seq is None,
            v@.last_processed_time is None,
            v@.dropped == 0,
            v@.gaps == 0,
            v@.max_lateness_ms == 0,
    {
        SequenceValidator { last_seq: None, last_processed_time: None, dropped: 0, gaps: 0, max_lateness_ms: 0 }
    }
}

impl SequenceValidator {
    /// A validator that has seen nothing yet and tolerates events up to
    /// `max_lateness_ms` older than the last accepted one.
    pub fn new(max_lateness_ms: u64) -> (v: Self)
        ensures
            v@.last_seq is None,
            v@.last_processed_time is None,
            v@.dropped == 0,
            v@.gaps == 0,
            v@.max_lateness_ms == max_lateness_ms,
    {
        SequenceValidator { last_seq: None, last_processed_time: None, dropped: 0, gaps: 0, max_lateness_ms }
    }

    /// Accepts `seq` at time `ts` if it directly follows the last accepted
    /// sequence number and is not later than the lateness limit allows.
    pub fn validate(&mut self, seq: u64, ts: u64) -> (r: Result<(), ValidationError>)
        requires
            validate_defined(old(self)@, seq),
        ensures
            r == validate_result(old(self)@, seq, ts),
            final(self)@ == validate_next(old(self)@, seq, ts),
    {
        if let Some(last) = self.last_seq {
            if seq == last {
                return Err(ValidationError::Duplicate { seq });
            }
        }
        if let Some(last) = self.last_seq {
            if seq != last + 1 {
                self.gaps = self.gaps.saturating_add(1);
                return Err(ValidationError::Gap { expected: last + 1, got: seq });
            }
        }
        if let Some(last_ts) = self.last_processed_time {
            if ts < last_ts {
                let lateness = last_ts.saturating_sub(ts);
                if lateness > self.max_lateness_ms {
                    self.dropped = self.dropped.saturating_add(1);
                    return Err(ValidationError::LateEvent { max_lateness_ms: self.max_lateness_ms, lateness_ms: lateness });
                }
            }
        }
        self.last_seq = Some(seq);
        self.last_processed_time = Some(ts);
        Ok(())
    }

    /// `(dropped late events, detected gaps, last accepted sequence or 0)`.
    pub fn metrics(&self) -> (m: (u64, u64, u64))
        ensures
            m.0 == self@.dropped,
            m.1 == self@.gaps,
            m.2 == (match self@.last_seq { Some(l) => l, None => 0 }),
    {
        (self.dropped, self.gaps, match self.last_seq { Some(l) => l, None => 0 })
    }
}

/// Once a sequence number has been accepted, the next accepted one is its
/// direct successor: a validator never accepts out of order, twice, or
/// across a gap.
pub proof fn lemma_accepts_only_successor(s: ValidatorState, seq: u64, ts: u64)
    requires
        s.last_seq is Some,
        validate_result(s, seq, ts) is Ok,
    ensures
        seq == s.last_seq->0 + 1,
{
}

/// A refused message leaves the last accepted sequence number and
/// timestamp untouched; only the counters may move.
pub proof fn lemma_refusal_keeps_position(s: ValidatorState, seq: u64, ts: u64)
    requires
        validate_result(s, seq, ts) is Err,
    ensures
        validate_next(s, seq, ts).last_seq == s.last_seq,
        validate_next(s, seq, ts).last_processed_time == s.last_processed_time,
        validate_next(s, seq, ts).max_lateness_ms == s.max_lateness_ms,
{
}

/// The drop and gap counters never decrease, and each call raises at most
/// one of them by at most one.
pub proof fn lemma_counters_monotone(s: ValidatorState, seq: u64, ts: u64)
    ensures
        s.dropped <= validate_next(s, seq, ts).dropped <= s.dropped + 1,
        s.gaps <= validate_next(s, seq, ts).gaps <= s.gaps + 1,
{
}

/// An accepted message is never a duplicate of the last one, and a
/// duplicate changes nothing at all.
pub proof fn lemma_duplicate_is_idempotent(s: ValidatorState, ts: u64)
    requires
        s.last_seq is Some,
    ensures
        validate_result(s, s.last_seq->0, ts) == Err::<(), ValidationError>(ValidationError::Duplicate { seq: s.last_seq->0 }),
        validate_next(s, s.last_seq->0, ts) == s,
{
}

/// The state after validating each `(seq, ts)` of `calls` in turn,
/// starting from `s`.
pub open spec fn validate_all(s: ValidatorState, calls: Seq<(u64, u64)>) -> ValidatorState
    decreases calls.len(),
{
    if calls.len() == 0 {
        s
    } else {
        let prev = validate_all(s, calls.drop_last());
        validate_next(prev, calls.last().0, calls.last().1)
    }
}

/// Each call of `calls`, made in turn from `s`, is defined (see
/// [`validate_defined`]).
pub open spec fn validate_all_defined(s: ValidatorState, calls: Seq<(u64, u64)>) -> bool
    decreases calls.len(),
{
    calls.len() == 0 || (validate_all_defined(s, calls.drop_last())
        && validate_defined(validate_all(s, calls.drop_last()), calls.last().0))
}

/// How many of the calls, made in turn from `s`, were refused as late.
pub open spec fn late_results(s: ValidatorState, calls: Seq<(u64, u64)>) -> nat
    decreases calls.len(),
{
    if calls.len() == 0 {
        0
    } else {
        let prev = validate_all(s, calls.drop_last());
        late_results(s, calls.drop_last()) + if validate_result(prev, calls.last().0, calls.last().1)
            is Err && validate_result(prev, calls.last().0, calls.last().1)->Err_0 is LateEvent { 1nat } else { 0nat }
    }
}

/// How many of the calls, made in turn from `s`, were refused as gaps.
pub open spec fn gap_results(s: ValidatorState, calls: Seq<(u64, u64)>) -> nat
    decreases calls.len(),
{
    if calls.len() == 0 {
        0
    } else {
        let prev = validate_all(s, calls.drop_last());
        gap_results(s, calls.drop_last()) + if validate_result(prev, calls.last().0, calls.last().1)
            is Err && validate_result(prev, calls.last().0, calls.last().1)->Err_0 is Gap { 1nat } else { 0nat }
    }
}

/// The sequence number of the last accepted call, made in turn from `s`,
/// or 0 when none was accepted.
pub open spec fn last_accepted(s: ValidatorState, calls: Seq<(u64, u64)>) -> u64
    decreases calls.len(),
{
    if calls.len() == 0 {
        0
    } else if validate_result(validate_all(s, calls.drop_last()), calls.last().0, calls.last().1) is Ok {
        calls.last().0
    } else {
        last_accepted(s, calls.drop_last())
    }
}

/// `n`, saturated at `u64::MAX`.
pub open spec fn saturated(n: nat) -> u64 {
    if n >= u64::MAX { u64::MAX } else { n as u64 }
}

/// The metrics of a new validator after any run of calls: the drop counter
/// is the number of late refusals and the gap counter the number of gap
/// refusals (each saturating at `u64::MAX`), and the last sequence number
/// is that of the last accepted call, or 0 when none was accepted.
pub proof fn lemma_metrics_count_history(s: ValidatorState, calls: Seq<(u64, u64)>)
    requires
        s.last_seq is None,
        s.last_processed_time is None,
        s.dropped == 0,
        s.gaps == 0,
        validate_all_defined(s, calls),
    ensures
        validate_all(s, calls).dropped == saturated(late_results(s, calls)),
        validate_all(s, calls).gaps == saturated(gap_results(s, calls)),
        (match validate_all(s, calls).last_seq { Some(l) => l, None => 0 }) == last_accepted(s, calls),
        validate_all(s, calls).max_lateness_ms == s.max_lateness_ms,
    decreases calls.len(),
{
    if calls.len() > 0 {
        lemma_metrics_count_history(s, calls.drop_last());
    }
}

/// What each call answers, checked in this order whatever the timestamp
/// says: the last accepted number again is a duplicate and changes
/// nothing; any other number but its successor is a gap (expected the
/// successor, got `seq`), counted once, even when the event is also late;
/// only the successor, or any number when none was accepted yet, is then
/// checked for lateness: an event more than `max_lateness_ms` older than
/// the last accepted one is dropped and counted; otherwise it is accepted
/// and becomes the last number and time.
pub proof fn lemma_validation_order(s: ValidatorState, seq: u64, ts: u64)
    requires
        validate_defined(s, seq),
    ensures
        s.last_seq == Some(seq) ==> validate_result(s, seq, ts) == Err::<(), ValidationError>(
            ValidationError::Duplicate { seq }) && validate_next(s, seq, ts) == s,
        s.last_seq is Some && seq != s.last_seq->0 && seq != s.last_seq->0 + 1 ==> {
            &&& validate_result(s, seq, ts) == Err::<(), ValidationError>(
                ValidationError::Gap { expected: (s.last_seq->0 + 1) as u64, got: seq })
            &&& validate_next(s, seq, ts) == ValidatorState { gaps: sat_inc(s.gaps), ..s }
        },
        (s.last_seq is None || s.last_seq == Some((seq - 1) as u64) && seq > 0) ==> {
            if s.last_processed_time is Some && ts + s.max_lateness_ms < s.last_processed_time->0 {
                &&& validate_result(s, seq, ts) == Err::<(), ValidationError>(ValidationError::LateEvent {
                    max_lateness_ms: s.max_lateness_ms, lateness_ms: (s.last_processed_time->0 - ts) as u64 })
                &&& validate_next(s, seq, ts) == ValidatorState { dropped: sat_inc(s.dropped), ..s }
            } else {
                &&& validate_result(s, seq, ts) is Ok
                &&& validate_next(s, seq, ts) == ValidatorState { last_seq: Some(seq), last_processed_time: Some(ts), ..s }
            }
        },
        validate_result(s, seq, ts) matches Err(ValidationError::LateEvent { .. })
            ==> (s.last_seq is None || s.last_seq == Some((seq - 1) as u64)),
{
}

} // verus!
