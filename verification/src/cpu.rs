//! CPU time accounting.
//!
//! The kernel reports, per line, a label and a row of counters: first one
//! record that sums over all cores, then one record per core. A record is
//! read strictly: every token behind the label must be a number, and the
//! seven counters that every kernel writes must be there. Only the three
//! counters that newer kernels added may be missing, and then count as 0.

use crate::lines::{
    after_line, lemma_line_len_is, lemma_lines_unfold, lines, next_line, CARRIAGE_RETURN, LINE_FEED,
};
use crate::number::{decimal, is_numeral, lemma_u64_of_numeral, parse_u64, u64_of, IntErrorKind};
use crate::text::{
    chars_of, decode, is_layout, laid_out, lemma_tokens_of_layout, next_token, tokens,
};
use crate::{Error, Failure};
use vstd::prelude::*;
use vstd::slice::slice_subrange;
use vstd::string::StringExecFns;
use vstd::utf8::{decode_utf8, valid_utf8};

verus! {

/// The counters that every record must hold.
pub const MANDATORY_FIELDS: usize = 7;

/// The message of the error for a source without a readable first line.
pub const NO_CPU_LINE: &'static str = "Expected cpu line but none found.";

/// The message of the error for a later line that is not text.
pub const UNREADABLE_LINE: &'static str = "Failed to read line.";

/// Details about current CPU time utilization.
///
/// The counters give the time, in units of `USER_HZ`, that the system has
/// spent in each mode since boot. They are of use when two snapshots are
/// compared.
#[derive(Debug, Clone, Copy, PartialEq, Eq, Structural)]
pub struct CpuTimes {
    /// Time spent in user mode
    pub user: u64,
    /// Time spent in user mode with low priority (nice)
    pub nice: u64,
    /// Time spent in system mode
    pub system: u64,
    /// Time spent idle
    pub idle: u64,
    /// Time spent waiting for I/O to complete
    pub iowait: u64,
    /// Time spent servicing interrupts
    pub irq: u64,
    /// Time spent servicing softirqs
    pub softirq: u64,
    /// Time spent in other operating systems when running
    /// in a virtualized environment (Linux 2.6.11 and later)
    pub steal: u64,
    /// Time spent running a virtualized CPU for a guest
    /// operating system (Linux 2.6.24 and later)
    pub guest: u64,
    /// Time spent running a niced guest virtualized CPU for a guest
    /// operating system (Linux 2.6.33 and later)
    pub guest_nice: u64,
}

/// How a call ended, with the error seen as contracts see it.
pub open spec fn outcome(r: Result<CpuTimes, Error>) -> Result<CpuTimes, Failure> {
    match r {
        Ok(times) => Ok(times),
        Err(e) => Err(e@),
    }
}

/// How a call that yields a list ended, with the list as a sequence and the
/// error seen as contracts see it.
pub open spec fn outcomes(r: Result<Vec<CpuTimes>, Error>) -> Result<Seq<CpuTimes>, Failure> {
    match r {
        Ok(list) => Ok(list@),
        Err(e) => Err(e@),
    }
}

/// The tokens of a record behind its label.
pub open spec fn fields_of(line: Seq<char>) -> Seq<Seq<char>> {
    let all = tokens(line);
    if all.len() == 0 {
        all
    } else {
        all.skip(1)
    }
}

/// How many fields, counted from the first, are numbers.
pub open spec fn counters_run(fields: Seq<Seq<char>>) -> nat
    decreases fields.len(),
{
    if fields.len() == 0 || u64_of(fields[0]) is Err {
        0
    } else {
        1 + counters_run(fields.skip(1))
    }
}

/// The number in field `i`, and 0 where the record has no such field.
pub open spec fn counter(fields: Seq<Seq<char>>, i: int) -> u64 {
    if 0 <= i < fields.len() {
        match u64_of(fields[i]) {
            Ok(v) => v,
            Err(_) => 0,
        }
    } else {
        0
    }
}

/// What a line of accounting text holds.
///
/// The first field that is no number decides the error. A record whose
/// fields are all numbers but fewer than seven lacks a counter, which is
/// reported as the empty number it would have to be read from.
pub open spec fn record_of(line: Seq<char>) -> Result<CpuTimes, Failure> {
    let fields = fields_of(line);
    let good = counters_run(fields) as int;
    if good < fields.len() {
        Err(Failure::Parse(u64_of(fields[good])->Err_0))
    } else if fields.len() < MANDATORY_FIELDS {
        Err(Failure::Parse(IntErrorKind::Empty))
    } else {
        Ok(
            CpuTimes {
                user: counter(fields, 0),
                nice: counter(fields, 1),
                system: counter(fields, 2),
                idle: counter(fields, 3),
                iowait: counter(fields, 4),
                irq: counter(fields, 5),
                softirq: counter(fields, 6),
                steal: counter(fields, 7),
                guest: counter(fields, 8),
                guest_nice: counter(fields, 9),
            },
        )
    }
}

/// Where the first `n` fields are numbers and the next one, if there is one,
/// is not, `counters_run` is `n`.
pub proof fn lemma_counters_run_is(fields: Seq<Seq<char>>, n: int)
    requires
        0 <= n <= fields.len(),
        forall|j: int| 0 <= j < n ==> u64_of(#[trigger] fields[j]) is Ok,
        n == fields.len() || u64_of(fields[n]) is Err,
    ensures
        counters_run(fields) == n,
    decreases n,
{
    if n > 0 {
        lemma_counters_run_is(fields.skip(1), n - 1);
    }
}

/// What a line of the file holds, given as bytes: a line that is not text
/// is the runtime error with `message`.
pub open spec fn record_of_bytes(line: Seq<u8>, message: Seq<char>) -> Result<CpuTimes, Failure> {
    if valid_utf8(line) {
        record_of(decode_utf8(line))
    } else {
        Err(Failure::Runtime(message))
    }
}

/// The aggregate record of a file: what its first line holds. A file
/// without a line, or whose first line is not text, is a runtime error.
pub open spec fn total_of(stat: Seq<u8>) -> Result<CpuTimes, Failure> {
    if lines(stat).len() == 0 {
        Err(Failure::Runtime(NO_CPU_LINE@))
    } else {
        record_of_bytes(lines(stat)[0], NO_CPU_LINE@)
    }
}

/// The line starts with the label of a per-core record.
pub open spec fn is_per_core(line: Seq<char>) -> bool {
    line.len() >= 3 && line[0] == 'c' && line[1] == 'p' && line[2] == 'u'
}

/// `list` put in front of what the rest of the reading gave.
pub open spec fn prepend(list: Seq<CpuTimes>, rest: Result<Seq<CpuTimes>, Failure>) -> Result<
    Seq<CpuTimes>,
    Failure,
> {
    match rest {
        Ok(more) => Ok(list + more),
        Err(e) => Err(e),
    }
}

/// The per-core records at the head of `ls`, in order.
///
/// Reading goes on while lines start with the per-core label, and ends
/// without error at the first line that does not, or with the last line.
/// A line that is reached and is not text, or is a per-core line that
/// cannot be read as a record, makes the whole reading fail.
pub open spec fn per_core_of(ls: Seq<Seq<u8>>) -> Result<Seq<CpuTimes>, Failure>
    decreases ls.len(),
{
    if ls.len() == 0 {
        Ok(Seq::empty())
    } else if !valid_utf8(ls[0]) {
        Err(Failure::Runtime(UNREADABLE_LINE@))
    } else if !is_per_core(decode_utf8(ls[0])) {
        Ok(Seq::empty())
    } else {
        match record_of(decode_utf8(ls[0])) {
            Ok(times) => prepend(seq![times], per_core_of(ls.skip(1))),
            Err(e) => Err(e),
        }
    }
}

/// The per-core records of a file: those that follow its first line, which
/// is passed over unread.
pub open spec fn per_cpu_of(stat: Seq<u8>) -> Result<Seq<CpuTimes>, Failure> {
    per_core_of(lines(after_line(stat)))
}

/// A line with a label and at least seven fields, all of them numbers, is
/// the record of these numbers in the order of the line; `steal`, `guest`
/// and `guest_nice` are 0 where the line ends before them.
pub proof fn lemma_well_formed_record(line: Seq<char>)
    requires
        tokens(line).len() > MANDATORY_FIELDS,
        forall|i: int| 1 <= i < tokens(line).len() ==> u64_of(#[trigger] tokens(line)[i]) is Ok,
    ensures
        record_of(line) == Ok::<CpuTimes, Failure>(
            CpuTimes {
                user: u64_of(tokens(line)[1])->Ok_0,
                nice: u64_of(tokens(line)[2])->Ok_0,
                system: u64_of(tokens(line)[3])->Ok_0,
                idle: u64_of(tokens(line)[4])->Ok_0,
                iowait: u64_of(tokens(line)[5])->Ok_0,
                irq: u64_of(tokens(line)[6])->Ok_0,
                softirq: u64_of(tokens(line)[7])->Ok_0,
                steal: if tokens(line).len() > 8 {
                    u64_of(tokens(line)[8])->Ok_0
                } else {
                    0
                },
                guest: if tokens(line).len() > 9 {
                    u64_of(tokens(line)[9])->Ok_0
                } else {
                    0
                },
                guest_nice: if tokens(line).len() > 10 {
                    u64_of(tokens(line)[10])->Ok_0
                } else {
                    0
                },
            },
        ),
{
    let fields = fields_of(line);
    assert forall|j: int| 0 <= j < fields.len() implies u64_of(#[trigger] fields[j]) is Ok by {
        assert(fields[j] == tokens(line)[j + 1]);
    }
    lemma_counters_run_is(fields, fields.len() as int);
}

/// The number that a numeral denotes, as a counter.
pub open spec fn count(numeral: Seq<char>) -> u64 {
    decimal(numeral) as u64
}

/// A line made of a label and at least seven numerals that fit a counter,
/// parted by white space of any kind and length, is the record of the
/// numbers that the numerals denote, in the order of the line; `steal`,
/// `guest` and `guest_nice` are 0 where the line ends before them.
pub proof fn lemma_record_of_layout(gaps: Seq<Seq<char>>, words: Seq<Seq<char>>)
    requires
        is_layout(gaps, words),
        words.len() > MANDATORY_FIELDS,
        forall|i: int|
            1 <= i < words.len() ==> is_numeral(#[trigger] words[i]) && decimal(words[i])
                <= u64::MAX,
    ensures
        record_of(laid_out(gaps, words)) == Ok::<CpuTimes, Failure>(
            CpuTimes {
                user: count(words[1]),
                nice: count(words[2]),
                system: count(words[3]),
                idle: count(words[4]),
                iowait: count(words[5]),
                irq: count(words[6]),
                softirq: count(words[7]),
                steal: if words.len() > 8 {
                    count(words[8])
                } else {
                    0
                },
                guest: if words.len() > 9 {
                    count(words[9])
                } else {
                    0
                },
                guest_nice: if words.len() > 10 {
                    count(words[10])
                } else {
                    0
                },
            },
        ),
{
    let line = laid_out(gaps, words);
    lemma_tokens_of_layout(gaps, words);
    assert forall|i: int| 1 <= i < words.len() implies u64_of(#[trigger] words[i]) == Ok::<
        u64,
        IntErrorKind,
    >(count(words[i])) by {
        lemma_u64_of_numeral(words[i]);
    }
    lemma_well_formed_record(line);
}

/// A line with fewer than seven fields behind its label is no record,
/// whatever the fields hold.
pub proof fn lemma_short_record_fails(line: Seq<char>)
    requires
        tokens(line).len() <= MANDATORY_FIELDS,
    ensures
        record_of(line) is Err,
{
}

/// A file that is a single line holds the record of that line as its
/// aggregate, whether or not a line feed ends it. A carriage return before
/// that line feed belongs to the line's end, not to the line.
pub proof fn lemma_total_of_single_line(line: Seq<u8>)
    requires
        line.len() > 0,
        forall|j: int| 0 <= j < line.len() ==> #[trigger] line[j] != LINE_FEED,
    ensures
        total_of(line) == record_of_bytes(line, NO_CPU_LINE@),
        line.last() != CARRIAGE_RETURN ==> total_of(line.push(LINE_FEED)) == record_of_bytes(
            line,
            NO_CPU_LINE@,
        ),
        line.last() == CARRIAGE_RETURN ==> total_of(line.push(LINE_FEED)) == record_of_bytes(
            line.drop_last(),
            NO_CPU_LINE@,
        ),
{
    lemma_lines_unfold(line);
    lemma_line_len_is(line, line.len() as int);
    assert(line.take(line.len() as int) == line);
    let ended = line.push(LINE_FEED);
    lemma_lines_unfold(ended);
    lemma_line_len_is(ended, line.len() as int);
    assert(ended.take(line.len() as int) == line);
    assert(ended.take(line.len() - 1) == line.drop_last());
}

/// The line is text that holds a per-core record.
pub open spec fn is_core_record(line: Seq<u8>) -> bool {
    valid_utf8(line) && is_per_core(decode_utf8(line)) && record_of(decode_utf8(line)) is Ok
}

/// The line is text that does not start with the per-core label.
pub open spec fn ends_core_records(line: Seq<u8>) -> bool {
    valid_utf8(line) && !is_per_core(decode_utf8(line))
}

/// Where the first `n` lines are per-core records and the line behind them,
/// if there is one, is text of another kind, reading gives exactly these `n`
/// records in their order, whatever else follows.
pub proof fn lemma_per_core_of_records(ls: Seq<Seq<u8>>, n: int)
    requires
        0 <= n <= ls.len(),
        forall|i: int| 0 <= i < n ==> is_core_record(#[trigger] ls[i]),
        n < ls.len() ==> ends_core_records(ls[n]),
    ensures
        per_core_of(ls) == Ok::<Seq<CpuTimes>, Failure>(
            Seq::new(n as nat, |i: int| record_of(decode_utf8(ls[i]))->Ok_0),
        ),
    decreases n,
{
    let all = Seq::new(n as nat, |i: int| record_of(decode_utf8(ls[i]))->Ok_0);
    if n == 0 {
        assert(all == Seq::<CpuTimes>::empty());
    } else {
        let rest = ls.skip(1);
        assert forall|i: int| 0 <= i < n - 1 implies is_core_record(#[trigger] rest[i]) by {
            assert(rest[i] == ls[i + 1]);
        }
        lemma_per_core_of_records(rest, n - 1);
        let tail = Seq::new((n - 1) as nat, |i: int| record_of(decode_utf8(rest[i]))->Ok_0);
        assert(seq![record_of(decode_utf8(ls[0]))->Ok_0] + tail == all);
    }
}

/// A file with `n` per-core records behind its first line, followed by
/// nothing or by a line of another kind, holds exactly these `n` records, in
/// the order of the file. What the first line holds, and what stands behind
/// the line that ends the records, has no bearing on it.
pub proof fn lemma_per_cpu_of_records(stat: Seq<u8>, n: int)
    requires
        0 <= n < lines(stat).len(),
        forall|i: int| 1 <= i <= n ==> is_core_record(#[trigger] lines(stat)[i]),
        n + 1 < lines(stat).len() ==> ends_core_records(lines(stat)[n + 1]),
    ensures
        per_cpu_of(stat) == Ok::<Seq<CpuTimes>, Failure>(
            Seq::new(n as nat, |i: int| record_of(decode_utf8(lines(stat)[i + 1]))->Ok_0),
        ),
{
    lemma_lines_unfold(stat);
    let rest = lines(after_line(stat));
    assert forall|i: int| 0 <= i < n implies is_core_record(#[trigger] rest[i]) by {
        assert(rest[i] == lines(stat)[i + 1]);
    }
    lemma_per_core_of_records(rest, n);
    assert(Seq::new(n as nat, |i: int| record_of(decode_utf8(rest[i]))->Ok_0) == Seq::new(
        n as nat,
        |i: int| record_of(decode_utf8(lines(stat)[i + 1]))->Ok_0,
    ));
}

/// A file that holds the aggregate alone, or nothing at all, has no per-core
/// record, and reading it is no error.
pub proof fn lemma_per_cpu_of_aggregate_alone(stat: Seq<u8>)
    requires
        lines(stat).len() <= 1,
    ensures
        per_cpu_of(stat) == Ok::<Seq<CpuTimes>, Failure>(Seq::empty()),
{
    lemma_lines_unfold(stat);
    if stat.len() == 0 {
        lemma_lines_unfold(after_line(stat));
    }
}

/// Reading is a function of the bytes read: two readings of the aggregate
/// from equal contents end alike, with equal records or with like errors.
pub proof fn lemma_total_is_repeatable(
    stat: Seq<u8>,
    first: Result<CpuTimes, Error>,
    second: Result<CpuTimes, Error>,
)
    requires
        outcome(first) == total_of(stat),
        outcome(second) == total_of(stat),
    ensures
        outcome(first) == outcome(second),
        first is Ok ==> second is Ok && first->Ok_0 == second->Ok_0,
{
}

/// Two readings of the per-core records from equal contents end alike, with
/// equal lists or with like errors, however many processors the system
/// reported each time.
pub proof fn lemma_per_cpu_is_repeatable(
    stat: Seq<u8>,
    first: Result<Vec<CpuTimes>, Error>,
    second: Result<Vec<CpuTimes>, Error>,
)
    requires
        outcomes(first) == per_cpu_of(stat),
        outcomes(second) == per_cpu_of(stat),
    ensures
        outcomes(first) == outcomes(second),
        first is Ok ==> second is Ok && first->Ok_0@ == second->Ok_0@,
{
}

/// The most records for which room is made before reading.
pub const MAX_RESERVED: usize = 4096;

/// The number of records to expect for a reported number of processors:
/// that number where it is known and positive, else none.
pub open spec fn expected_records(reported: Option<isize>) -> usize {
    match reported {
        Some(n) => if n > 0 {
            n as usize
        } else {
            0
        },
        None => 0,
    }
}

/// The number of records to expect for a reported number of processors.
pub fn capacity_hint(reported: Option<isize>) -> (hint: usize)
    ensures
        hint == expected_records(reported),
{
    match reported {
        Some(n) => if n > 0 {
            n as usize
        } else {
            0
        },
        None => 0,
    }
}

/// The error of `sysconf::raw::sysconf`, carried through unopened.
#[verifier::external_type_specification]
#[verifier::external_body]
pub struct ExSysconfError(sysconf::raw::SysconfError);

/// Asks the system how many processors are online.
///
/// This is `sysconf::raw::sysconf` with `ScNprocessorsOnln`. The answer
/// depends on the machine, so the contract claims only what the function
/// shows for every answer: it reports -1 from the system as an error, never
/// as a value.
#[verifier::external_body]
fn online_processors() -> (r: Result<isize, sysconf::raw::SysconfError>)
    ensures
        r matches Ok(n) ==> n != -1,
{
    sysconf::raw::sysconf(sysconf::raw::SysconfVariable::ScNprocessorsOnln)
}

/// Tells whether the line starts with the label of a per-core record.
pub fn starts_per_core(line: &[char]) -> (b: bool)
    ensures
        b == is_per_core(line@),
{
    line.len() >= 3 && line[0] == 'c' && line[1] == 'p' && line[2] == 'u'
}

impl CpuTimes {
    /// Reads one record from the characters of a line.
    pub fn from_chars(line: &[char]) -> (r: Result<CpuTimes, Error>)
        ensures
            outcome(r) == record_of(line@),
    {
        let ghost fields = fields_of(line@);
        let mut values: Vec<u64> = Vec::new();
        let mut pos: usize = 0;
        match next_token(line, 0) {
            None => {
                proof {
                    assert(line@.skip(0) == line@);
                    lemma_counters_run_is(fields, 0);
                }
                return Err(Error::ParseError(IntErrorKind::Empty));
            },
            Some((_, end)) => {
                proof {
                    assert(line@.skip(0) == line@);
                }
                pos = end;
            },
        }
        loop
            invariant
                fields == fields_of(line@),
                pos <= line.len(),
                values.len() <= fields.len(),
                tokens(line@.skip(pos as int)) == fields.skip(values.len() as int),
                forall|j: int|
                    0 <= j < values.len() ==> u64_of(#[trigger] fields[j]) == Ok::<
                        u64,
                        IntErrorKind,
                    >(values[j]),
            ensures
                values.len() == fields.len(),
            decreases line.len() - pos,
        {
            match next_token(line, pos) {
                None => {
                    break ;
                },
                Some((start, end)) => {
                    let ghost n = values.len() as int;
                    proof {
                        let rest = fields.skip(n);
                        assert(fields[n] == rest[0]);
                        assert(rest.skip(1) == tokens(line@.skip(end as int)));
                    }
                    match parse_u64(slice_subrange(line, start, end)) {
                        Ok(value) => {
                            values.push(value);
                            pos = end;
                        },
                        Err(kind) => {
                            proof {
                                lemma_counters_run_is(fields, n);
                            }
                            return Err(Error::ParseError(kind));
                        },
                    }
                },
            }
        }
        proof {
            lemma_counters_run_is(fields, fields.len() as int);
        }
        if values.len() < MANDATORY_FIELDS {
            return Err(Error::ParseError(IntErrorKind::Empty));
        }
        Ok(
            CpuTimes {
                user: values[0],
                nice: values[1],
                system: values[2],
                idle: values[3],
                iowait: values[4],
                irq: values[5],
                softirq: values[6],
                steal: if values.len() > 7 {
                    values[7]
                } else {
                    0
                },
                guest: if values.len() > 8 {
                    values[8]
                } else {
                    0
                },
                guest_nice: if values.len() > 9 {
                    values[9]
                } else {
                    0
                },
            },
        )
    }

    /// Reads one record from a line of accounting text.
    ///
    /// The label is skipped unread. The next seven tokens are `user`, `nice`,
    /// `system`, `idle`, `iowait`, `irq` and `softirq`; `steal`, `guest` and
    /// `guest_nice` follow where the kernel writes them and are 0 where it
    /// does not.
    pub fn from_line(line: &str) -> (r: Result<CpuTimes, Error>)
        ensures
            outcome(r) == record_of(line@),
            tokens(line@).len() <= MANDATORY_FIELDS ==> r is Err,
    {
        let chars = chars_of(line);
        Self::from_chars(chars.as_slice())
    }

    /// Reads the record that sums over all cores from the contents of the
    /// accounting file: it is the first line.
    pub fn total(stat: &[u8]) -> (r: Result<CpuTimes, Error>)
        ensures
            outcome(r) == total_of(stat@),
    {
        proof {
            lemma_lines_unfold(stat@);
            assert(stat@.skip(0) == stat@);
        }
        match next_line(stat, 0) {
            None => Err(Error::RuntimeError(String::from_str(NO_CPU_LINE))),
            Some(line) => match decode(slice_subrange(stat, line.start, line.end)) {
                None => Err(Error::RuntimeError(String::from_str(NO_CPU_LINE))),
                Some(chars) => Self::from_chars(chars.as_slice()),
            },
        }
    }

    /// Reads the per-core records from the contents of the accounting file,
    /// in the order of the file, after making room for `capacity` records
    /// (for `MAX_RESERVED` where `capacity` is larger). The room made has no
    /// bearing on the result.
    pub fn per_cpu_with_capacity(stat: &[u8], capacity: usize) -> (r: Result<Vec<CpuTimes>, Error>)
        ensures
            outcomes(r) == per_cpu_of(stat@),
    {
        let room = if capacity <= MAX_RESERVED {
            capacity
        } else {
            MAX_RESERVED
        };
        let mut cpus: Vec<CpuTimes> = Vec::with_capacity(room);
        let mut pos: usize = 0;
        proof {
            assert(stat@.skip(0) == stat@);
        }
        match next_line(stat, 0) {
            None => {
                return Ok(cpus);
            },
            Some(line) => {
                pos = line.next;
            },
        }
        loop
            invariant
                pos <= stat.len(),
                per_cpu_of(stat@) == prepend(cpus@, per_core_of(lines(stat@.skip(pos as int)))),
            decreases stat.len() - pos,
        {
            proof {
                lemma_lines_unfold(stat@.skip(pos as int));
            }
            let line = match next_line(stat, pos) {
                None => {
                    return Ok(cpus);
                },
                Some(line) => line,
            };
            let chars = match decode(slice_subrange(stat, line.start, line.end)) {
                None => {
                    return Err(Error::RuntimeError(String::from_str(UNREADABLE_LINE)));
                },
                Some(chars) => chars,
            };
            if !starts_per_core(chars.as_slice()) {
                return Ok(cpus);
            }
            match Self::from_chars(chars.as_slice()) {
                Ok(times) => {
                    proof {
                        let rest = per_core_of(lines(stat@.skip(line.next as int)));
                        assert(prepend(cpus@, prepend(seq![times], rest)) == prepend(
                            cpus@.push(times),
                            rest,
                        )) by {
                            if let Ok(more) = rest {
                                assert(cpus@ + (seq![times] + more) == cpus@.push(times) + more);
                            }
                        }
                    }
                    cpus.push(times);
                    pos = line.next;
                },
                Err(e) => {
                    return Err(e);
                },
            }
        }
    }

    /// Reads the per-core records from the contents of the accounting file,
    /// in the order of the file. Room is made ahead for as many records as
    /// the system reports processors online; the records returned are those
    /// of the file, however many the system reports.
    pub fn per_cpu(stat: &[u8]) -> (r: Result<Vec<CpuTimes>, Error>)
        ensures
            outcomes(r) == per_cpu_of(stat@),
    {
        let reported = match online_processors() {
            Ok(n) => Some(n),
            Err(_) => None,
        };
        Self::per_cpu_with_capacity(stat, capacity_hint(reported))
    }
}

} // verus!
