//! Elapsed-time counters and their human-readable rendering (`1m 20s 30ms`).
use vstd::prelude::*;

verus! {

/// `std::time::SystemTime`, carried through as it is: nothing is read from it here.
#[verifier::external_type_specification]
#[verifier::external_body]
pub struct ExSystemTime(std::time::SystemTime);

/// Relies on `std::time::SystemTime::now`. Nothing is known of the instant it returns.
#[verifier::external_body]
fn now() -> (r: std::time::SystemTime) {
    std::time::SystemTime::now()
}

/// Relies on `SystemTime::elapsed`, converted by `Duration::as_millis`: the whole milliseconds
/// since `t`, or `None` where the clock now reads earlier than `t`.
#[verifier::external_body]
fn elapsed_millis(t: &std::time::SystemTime) -> (r: Option<u128>) {
    t.elapsed().ok().map(|d| d.as_millis())
}

/// A stopwatch with a lap time that can be reset and a start time that cannot.
pub struct Counter {
    start_time: std::time::SystemTime,
    time: std::time::SystemTime,
}

impl Counter {
    pub closed spec fn spec_start(&self) -> std::time::SystemTime {
        self.start_time
    }

    pub closed spec fn spec_lap(&self) -> std::time::SystemTime {
        self.time
    }

    /// A counter whose start and lap are both now.
    pub fn new() -> (r: Counter)
        ensures
            r.spec_start() == r.spec_lap(),
    {
        let time = now();
        Counter { start_time: time, time }
    }

    /// The time since the lap began; `None` where the clock went backwards.
    pub fn elapsed(&self) -> Option<PrintableDuration> {
        match elapsed_millis(&self.time) {
            Some(ms) => Some(PrintableDuration { duration: ms }),
            None => None,
        }
    }

    /// Begins a new lap; the start stays.
    pub fn reset(&mut self)
        ensures
            final(self).spec_start() == old(self).spec_start(),
    {
        self.time = now();
    }

    /// The time since the counter was made; `None` where the clock went backwards.
    pub fn from_start(&self) -> Option<PrintableDuration> {
        match elapsed_millis(&self.start_time) {
            Some(ms) => Some(PrintableDuration { duration: ms }),
            None => None,
        }
    }
}

/// A duration in milliseconds, shown in minutes, seconds and milliseconds.
pub struct PrintableDuration {
    duration: u128,
}

/// The decimal digit for `d < 10`.
pub open spec fn digit(d: nat) -> char {
    seq!['0', '1', '2', '3', '4', '5', '6', '7', '8', '9'][d as int]
}

/// The decimal numeral of `n`, without leading zeros.
pub open spec fn decimal(n: nat) -> Seq<char>
    decreases n,
{
    if n < 10 {
        seq![digit(n)]
    } else {
        decimal(n / 10) + seq![digit(n % 10)]
    }
}

/// The part for one unit: the count and the unit's suffix, or nothing for a zero count.
pub open spec fn unit_part(count: nat, suffix: Seq<char>) -> Seq<Seq<char>> {
    if count == 0 {
        seq![]
    } else {
        seq![decimal(count) + suffix]
    }
}

/// The parts of a duration of `ms` milliseconds: whole minutes, the seconds left over, and
/// the milliseconds left over, each only where it is not zero.
pub open spec fn duration_parts(ms: nat) -> Seq<Seq<char>> {
    unit_part(ms / 60000, seq!['m']) + unit_part(ms / 1000 % 60, seq!['s']) + unit_part(ms % 1000, seq!['m', 's'])
}

/// The parts joined with single spaces.
pub open spec fn join_spaced(ps: Seq<Seq<char>>) -> Seq<char>
    decreases ps.len(),
{
    if ps.len() == 0 {
        seq![]
    } else if ps.len() == 1 {
        ps[0]
    } else {
        join_spaced(ps.drop_last()) + seq![' '] + ps.last()
    }
}

/// How a duration of `ms` milliseconds is shown.
pub open spec fn duration_text(ms: nat) -> Seq<char> {
    join_spaced(duration_parts(ms))
}

/// Appends the decimal numeral of `n` to `out`.
fn push_decimal(out: &mut Vec<char>, n: u128)
    ensures
        final(out)@ == old(out)@ + decimal(n as nat),
    decreases n,
{
    let digits: [char; 10] = ['0', '1', '2', '3', '4', '5', '6', '7', '8', '9'];
    if n >= 10 {
        push_decimal(out, n / 10);
    }
    let d = (n % 10) as usize;
    out.push(digits[d]);
    assert(digits@ == seq!['0', '1', '2', '3', '4', '5', '6', '7', '8', '9']);
    assert(final(out)@ =~= old(out)@ + decimal(n as nat));
}

/// Appends one part, after a space where `out` already holds parts.
fn push_part(out: &mut Vec<char>, count: u128, suffix: &[char], ghost_before: Ghost<Seq<Seq<char>>>)
    requires
        old(out)@ == join_spaced(ghost_before@),
        forall|i: int| 0 <= i < ghost_before@.len() ==> #[trigger] ghost_before@[i].len() > 0,
    ensures
        final(out)@ == join_spaced(ghost_before@ + unit_part(count as nat, suffix@)),
{
    let ghost part = decimal(count as nat) + suffix@;
    if count == 0 {
        assert(ghost_before@ + unit_part(count as nat, suffix@) =~= ghost_before@);
        return;
    }
    let ghost ps = ghost_before@ + unit_part(count as nat, suffix@);
    assert(ps.drop_last() =~= ghost_before@);
    if out.len() > 0 {
        out.push(' ');
    } else {
        proof {
            if ghost_before@.len() > 0 {
                lemma_join_nonempty(ghost_before@);
            }
        }
        assert(ghost_before@.len() == 0);
    }
    push_decimal(out, count);
    let mut k: usize = 0;
    let ghost base = out@;
    while k < suffix.len()
        invariant
            k <= suffix@.len(),
            out@ == base + suffix@.subrange(0, k as int),
        decreases suffix@.len() - k,
    {
        out.push(suffix[k]);
        k = k + 1;
        assert(out@ =~= base + suffix@.subrange(0, k as int));
    }
    assert(suffix@.subrange(0, suffix@.len() as int) =~= suffix@);
    assert(final(out)@ =~= join_spaced(ps));
}

proof fn lemma_join_nonempty(ps: Seq<Seq<char>>)
    requires
        ps.len() > 0,
        forall|i: int| 0 <= i < ps.len() ==> #[trigger] ps[i].len() > 0,
    ensures
        join_spaced(ps).len() > 0,
    decreases ps.len(),
{
    if ps.len() > 1 {
        assert(ps.last() == ps[ps.len() - 1]);
    }
}

impl PrintableDuration {
    pub closed spec fn millis(&self) -> nat {
        self.duration as nat
    }

    /// A duration of `duration` milliseconds, which must not be zero.
    pub fn new(duration: u128) -> (r: PrintableDuration)
        requires
            duration != 0,
        ensures
            r.millis() == duration,
    {
        PrintableDuration { duration }
    }

    /// The duration shown as minutes, seconds and milliseconds, e.g. `1m 20s 30ms`.
    pub fn to_string(&self) -> (r: String)
        ensures
            r@ == duration_text(self.millis()),
    {
        let mut out: Vec<char> = Vec::new();
        let ghost ms = self.duration as nat;
        let minutes = self.duration / 60000;
        let seconds = self.duration / 1000 % 60;
        let millis = self.duration % 1000;
        let m: Vec<char> = vec!['m'];
        let s: Vec<char> = vec!['s'];
        let ms_suffix: Vec<char> = vec!['m', 's'];
        assert(m@ =~= seq!['m']);
        assert(s@ =~= seq!['s']);
        assert(ms_suffix@ =~= seq!['m', 's']);
        assert(out@ =~= join_spaced(Seq::<Seq<char>>::empty()));
        push_part(&mut out, minutes, m.as_slice(), Ghost(Seq::empty()));
        let ghost after_minutes = Seq::<Seq<char>>::empty() + unit_part(minutes as nat, seq!['m']);
        assert forall|i: int| 0 <= i < after_minutes.len() implies #[trigger] after_minutes[i].len() > 0 by {
            assert(decimal(minutes as nat).len() > 0);
        }
        push_part(&mut out, seconds, s.as_slice(), Ghost(after_minutes));
        let ghost after_seconds = after_minutes + unit_part(seconds as nat, seq!['s']);
        assert forall|i: int| 0 <= i < after_seconds.len() implies #[trigger] after_seconds[i].len() > 0 by {
            assert(decimal(minutes as nat).len() > 0);
            assert(decimal(seconds as nat).len() > 0);
            if i >= after_minutes.len() {
                assert(after_seconds[i] == decimal(seconds as nat) + seq!['s']);
            }
        }
        push_part(&mut out, millis, ms_suffix.as_slice(), Ghost(after_seconds));
        assert(after_seconds + unit_part(millis as nat, seq!['m', 's']) =~= duration_parts(ms));
        crate::text::string_of(out.as_slice())
    }
}

} // verus!
