//! The refresh worker's logic: parsing the disk-sampler output, owner
//! attribution, and the catalog and disk refresh steps that commit into the
//! state store. Spawning the sampler, sleeping between cycles and talking to
//! the database server are I/O and stay with the surrounding application,
//! which hands the captured bytes and query results in.

use vstd::prelude::*;
use crate::config::Config;
use crate::config::DiskConfig;
use crate::config::UserConfig;
use crate::postgres::DatabaseError;
use crate::state::Database;
use crate::state::DatabaseView;
use crate::state::DiskState;
use crate::state::State;
use crate::state::StateError;
use crate::state::StateRef;
use crate::state::StateView;
use crate::state::catalog_put_all;
use crate::state::views_of;
use crate::text::lower_of;
use crate::text::lowercase;
use crate::text::is_substring_of;
use crate::text::contains_str;

verus! {

/// Failure of a refresh step, as reported to a synchronous caller.
#[derive(Debug)]
pub enum WorkerError {
    /// The state store could not be updated.
    StateError { message: String },
    /// The disk-sampling command could not be launched or its output could
    /// not be read.
    IoError { message: String },
    /// The catalog could not be listed: connecting to or querying the
    /// database server failed.
    DatabaseError { message: String },
}

impl WorkerError {
    pub fn state_error(error: StateError) -> (e: WorkerError)
        ensures
            e matches WorkerError::StateError { message } && message@ == error@,
    {
        WorkerError::StateError { message: error.message().to_owned() }
    }

    pub fn io_error(message: &str) -> (e: WorkerError)
        ensures
            e matches WorkerError::IoError { message: m } && m@ == message@,
    {
        WorkerError::IoError { message: message.to_owned() }
    }

    pub fn database_error(error: &DatabaseError) -> (e: WorkerError)
        ensures
            e matches WorkerError::DatabaseError { message } && match *error {
                DatabaseError::Connection { message: m } => message@ == m@,
                DatabaseError::QueryExecution { message: m } => message@ == m@,
            },
    {
        WorkerError::DatabaseError { message: error.message().to_owned() }
    }

    /// The human-readable description of the failure.
    pub fn message(&self) -> (r: &str)
        ensures
            match *self {
                WorkerError::StateError { message } => r@ == message@,
                WorkerError::IoError { message } => r@ == message@,
                WorkerError::DatabaseError { message } => r@ == message@,
            },
    {
        match self {
            WorkerError::StateError { message } => message.as_str(),
            WorkerError::IoError { message } => message.as_str(),
            WorkerError::DatabaseError { message } => message.as_str(),
        }
    }
}

pub type WorkerResult<T> = Result<T, WorkerError>;

/// The mathematical value of one listing row.
pub struct DatabaseInfoView {
    pub name: Seq<char>,
    pub modified: int,
    pub size: int,
}

/// One row of the catalog listing: a database's name, modification
/// timestamp and size in bytes, as the server returned them.
#[derive(Debug)]
pub struct DatabaseInfo {
    name: String,
    modified: i64,
    size: u64,
}

impl View for DatabaseInfo {
    type V = DatabaseInfoView;

    closed spec fn view(&self) -> DatabaseInfoView {
        DatabaseInfoView {
            name: self.name@,
            modified: self.modified as int,
            size: self.size as int,
        }
    }
}

impl DatabaseInfo {
    pub fn new(name: &str, modified: i64, size: u64) -> (r: DatabaseInfo)
        ensures
            r@.name == name@,
            r@.modified == modified as int,
            r@.size == size as int,
    {
        DatabaseInfo { name: name.to_owned(), modified, size }
    }
}

/// ASCII whitespace, as the sampler output is trimmed by.
pub open spec fn is_sampler_space(b: u8) -> bool {
    b == 32 || b == 9 || b == 10 || b == 12 || b == 13
}

/// `s` contains a line break (stated through its first occurrence).
pub open spec fn has_newline(s: Seq<u8>) -> bool {
    exists|k: int|
        0 <= k < s.len() && #[trigger] s[k] == 10 && (forall|t: int| 0 <= t < k ==> s[t] != 10)
}

/// The position of the first line break of `s`.
pub open spec fn first_newline(s: Seq<u8>) -> int {
    choose|k: int|
        0 <= k < s.len() && #[trigger] s[k] == 10 && (forall|t: int| 0 <= t < k ==> s[t] != 10)
}

/// The lines of `s`: the segments between line breaks, without a trailing
/// empty segment after a final line break.
pub open spec fn split_lines(s: Seq<u8>) -> Seq<Seq<u8>>
    decreases s.len(),
{
    if s.len() == 0 {
        Seq::empty()
    } else if !has_newline(s) {
        seq![s]
    } else if 0 <= first_newline(s) < s.len() {
        seq![s.take(first_newline(s))] + split_lines(s.skip(first_newline(s) + 1))
    } else {
        // never reached: when a line break exists, its first position is in
        // range; the guard keeps the recursion visibly well-founded
        Seq::empty()
    }
}

/// Every byte of `s` is whitespace.
pub open spec fn all_space(s: Seq<u8>) -> bool {
    forall|i: int| 0 <= i < s.len() ==> is_sampler_space(#[trigger] s[i])
}

/// The position of the first byte of `s` that is not whitespace.
pub open spec fn first_non_space(s: Seq<u8>) -> int {
    choose|a: int|
        0 <= a < s.len() && !is_sampler_space(#[trigger] s[a]) && (forall|t: int|
            0 <= t < a ==> is_sampler_space(s[t]))
}

/// The position of the last byte of `s` that is not whitespace.
pub open spec fn last_non_space(s: Seq<u8>) -> int {
    choose|b: int|
        0 <= b < s.len() && !is_sampler_space(#[trigger] s[b]) && (forall|t: int|
            b < t < s.len() ==> is_sampler_space(s[t]))
}

/// `s` without leading and trailing whitespace.
pub open spec fn trimmed(s: Seq<u8>) -> Seq<u8> {
    if all_space(s) {
        Seq::empty()
    } else {
        s.subrange(first_non_space(s), last_non_space(s) + 1)
    }
}

/// A decimal digit.
pub open spec fn is_dec_digit(b: u8) -> bool {
    48 <= b <= 57
}

/// Every byte of `s` is a decimal digit.
pub open spec fn all_digits(s: Seq<u8>) -> bool {
    forall|i: int| 0 <= i < s.len() ==> is_dec_digit(#[trigger] s[i])
}

/// The value of `s` read as a decimal numeral.
pub open spec fn dec_value(s: Seq<u8>) -> int
    decreases s.len(),
{
    if s.len() == 0 {
        0
    } else {
        dec_value(s.drop_last()) * 10 + (s.last() - 48)
    }
}

/// `s` without an optional leading plus sign.
pub open spec fn numeric_part(s: Seq<u8>) -> Seq<u8> {
    if s.len() > 0 && s[0] == 43 {
        s.drop_first()
    } else {
        s
    }
}

/// The value of one trimmed sampler line: its decimal value when it is a
/// well-formed unsigned integer that fits, and zero on any parse failure.
pub open spec fn token_value(s: Seq<u8>) -> u64 {
    let d = numeric_part(s);
    if d.len() > 0 && all_digits(d) && dec_value(d) <= u64::MAX {
        dec_value(d) as u64
    } else {
        0
    }
}

/// Each line trimmed.
pub open spec fn trimmed_views(ls: Seq<Seq<u8>>) -> Seq<Seq<u8>> {
    ls.map_values(|l: Seq<u8>| trimmed(l))
}

/// Only the non-empty lines.
pub open spec fn keep_nonempty(ls: Seq<Seq<u8>>) -> Seq<Seq<u8>> {
    ls.filter(|l: Seq<u8>| l.len() > 0)
}

/// The value of each field.
pub open spec fn token_values(fs: Seq<Seq<u8>>) -> Seq<u64> {
    fs.map_values(|f: Seq<u8>| token_value(f))
}

/// The non-empty trimmed lines of the sampler output.
pub open spec fn sampler_fields(out: Seq<u8>) -> Seq<Seq<u8>> {
    keep_nonempty(trimmed_views(split_lines(out)))
}

/// The value of the `i`-th field of the sampler output: zero when the field
/// is missing or fails to parse.
pub open spec fn sampler_field(out: Seq<u8>, i: int) -> u64 {
    let fs = sampler_fields(out);
    if i < fs.len() {
        token_value(fs[i])
    } else {
        0
    }
}

/// The quota read from the sampler output: the first four non-empty trimmed
/// lines, in order, as offset, capacity, soft threshold and hard threshold.
pub open spec fn parsed_disk(out: Seq<u8>) -> DiskState {
    DiskState {
        offset: sampler_field(out, 0),
        capacity: sampler_field(out, 1),
        soft_threshold: sampler_field(out, 2),
        hard_threshold: sampler_field(out, 3),
    }
}

fn is_space_byte(b: u8) -> (r: bool)
    ensures
        r == is_sampler_space(b),
{
    b == 32 || b == 9 || b == 10 || b == 12 || b == 13
}

/// The byte sequences held by a vector of lines.
pub open spec fn line_views(lines: Seq<Vec<u8>>) -> Seq<Seq<u8>> {
    lines.map_values(|l: Vec<u8>| l@)
}

/// Splitting at the first line break of the remainder.
proof fn lemma_split_at_newline(out: Seq<u8>, start: int, i: int)
    requires
        0 <= start <= i < out.len(),
        forall|t: int| start <= t < i ==> out[t] != 10,
        out[i] == 10,
    ensures
        split_lines(out.skip(start)) == seq![out.subrange(start, i)] + split_lines(
            out.skip(i + 1),
        ),
{
    let s = out.skip(start);
    let w = i - start;
    assert(s[w] == out[i]);
    assert(forall|t: int| 0 <= t < w ==> s[t] == out[start + t] && s[t] != 10);
    assert(has_newline(s));
    let c = first_newline(s);
    assert(0 <= c < s.len() && s[c] == 10 && (forall|t: int| 0 <= t < c ==> s[t] != 10));
    assert(c == w) by {
        if c < w {
            assert(s[c] != 10);
        } else if c > w {
            assert(s[w] != 10);
        }
    }
    assert(s.take(c) =~= out.subrange(start, i));
    assert(s.skip(c + 1) =~= out.skip(i + 1));
}

/// Splitting a remainder that holds no line break.
proof fn lemma_split_tail(out: Seq<u8>, start: int)
    requires
        0 <= start <= out.len(),
        forall|t: int| start <= t < out.len() ==> out[t] != 10,
    ensures
        start < out.len() ==> split_lines(out.skip(start)) == seq![
            out.subrange(start, out.len() as int),
        ],
        start == out.len() ==> split_lines(out.skip(start)) == Seq::<Seq<u8>>::empty(),
{
    let s = out.skip(start);
    if start < out.len() {
        assert(s.len() > 0);
        assert(forall|t: int| 0 <= t < s.len() ==> s[t] == out[start + t] && s[t] != 10);
        assert(!has_newline(s));
        assert(s =~= out.subrange(start, out.len() as int));
    } else {
        assert(s =~= Seq::<u8>::empty());
    }
}

/// The lines of the sampler output, split on line breaks.
#[verifier::rlimit(100)]
fn split_lines_bytes(out: &[u8]) -> (lines: Vec<Vec<u8>>)
    ensures
        line_views(lines@) == split_lines(out@),
{
    let n = out.len();
    let mut lines: Vec<Vec<u8>> = Vec::new();
    let mut cur: Vec<u8> = Vec::new();
    let ghost mut start: int = 0;
    let mut i: usize = 0;
    proof {
        assert(line_views(lines@) =~= Seq::<Seq<u8>>::empty());
        assert(out@.skip(0) =~= out@);
        assert(cur@ =~= out@.subrange(0, 0));
    }
    while i < n
        invariant
            n == out@.len(),
            0 <= start <= i <= n,
            cur@ == out@.subrange(start, i as int),
            forall|t: int| start <= t < i ==> out@[t] != 10,
            split_lines(out@) == line_views(lines@) + split_lines(out@.skip(start)),
        decreases n - i,
    {
        let b = out[i];
        if b == 10 {
            proof {
                lemma_split_at_newline(out@, start, i as int);
            }
            let ghost prev = line_views(lines@);
            let ghost segment = cur@;
            let finished = cur;
            cur = Vec::new();
            lines.push(finished);
            proof {
                assert(segment =~= out@.subrange(start, i as int));
                assert(line_views(lines@) =~= prev.push(segment));
                assert(prev.push(segment) =~= prev + seq![segment]);
                assert(prev + (seq![segment] + split_lines(out@.skip(i + 1))) =~= (prev + seq![
                    segment,
                ]) + split_lines(out@.skip(i + 1)));
                start = i + 1;
                assert(cur@ =~= out@.subrange(start, i + 1));
            }
        } else {
            cur.push(b);
            proof {
                assert(cur@ =~= out@.subrange(start, i + 1));
            }
        }
        i += 1;
    }
    proof {
        lemma_split_tail(out@, start);
    }
    if cur.len() > 0 {
        let ghost prev = line_views(lines@);
        let ghost segment = cur@;
        lines.push(cur);
        proof {
            assert(segment =~= out@.subrange(start, n as int));
            assert(line_views(lines@) =~= prev.push(segment));
            assert(prev + seq![segment] =~= prev.push(segment));
        }
    } else {
        proof {
            assert(line_views(lines@) + Seq::<Seq<u8>>::empty() =~= line_views(lines@));
        }
    }
    lines
}


/// `line` without leading and trailing ASCII whitespace.
fn trim_bytes(line: &[u8]) -> (t: Vec<u8>)
    ensures
        t@ == trimmed(line@),
{
    let n = line.len();
    let mut a: usize = 0;
    while a < n
        invariant
            0 <= a <= n,
            n == line@.len(),
            forall|t: int| 0 <= t < a ==> is_sampler_space(#[trigger] line@[t]),
        ensures
            0 <= a <= n,
            forall|t: int| 0 <= t < a ==> is_sampler_space(#[trigger] line@[t]),
            a < n ==> !is_sampler_space(line@[a as int]),
        decreases n - a,
    {
        if !is_space_byte(line[a]) {
            break;
        }
        a += 1;
    }
    if a == n {
        proof {
            assert(all_space(line@));
            assert(trimmed(line@) =~= Seq::<u8>::empty());
        }
        return Vec::new();
    }
    let mut b: usize = n - 1;
    while b > a
        invariant
            a <= b < n,
            n == line@.len(),
            forall|t: int| b < t < n ==> is_sampler_space(#[trigger] line@[t]),
        ensures
            a <= b < n,
            forall|t: int| b < t < n ==> is_sampler_space(#[trigger] line@[t]),
            b > a ==> !is_sampler_space(line@[b as int]),
        decreases b,
    {
        if !is_space_byte(line[b]) {
            break;
        }
        b -= 1;
    }
    proof {
        assert(!is_sampler_space(line@[a as int]));
        assert(!is_sampler_space(line@[b as int]));
        assert(!all_space(line@));
        let fa = first_non_space(line@);
        assert(0 <= fa < line@.len() && !is_sampler_space(line@[fa]) && (forall|t: int|
            0 <= t < fa ==> is_sampler_space(line@[t])));
        assert(fa == a as int) by {
            if fa < a as int {
                assert(is_sampler_space(line@[fa]));
            } else if fa > a as int {
                assert(is_sampler_space(line@[a as int]));
            }
        }
        let lb = last_non_space(line@);
        assert(0 <= lb < line@.len() && !is_sampler_space(line@[lb]) && (forall|t: int|
            lb < t < line@.len() ==> is_sampler_space(line@[t])));
        assert(lb == b as int) by {
            if lb < b as int {
                assert(is_sampler_space(line@[b as int]));
            } else if lb > b as int {
                assert(is_sampler_space(line@[lb]));
            }
        }
    }
    let mut t: Vec<u8> = Vec::new();
    let mut i: usize = a;
    proof {
        assert(t@ =~= line@.subrange(a as int, a as int));
    }
    while i <= b
        invariant
            a <= i <= b + 1,
            b < n,
            n == line@.len(),
            t@ == line@.subrange(a as int, i as int),
        decreases b + 1 - i,
    {
        t.push(line[i]);
        proof {
            assert(t@ =~= line@.subrange(a as int, i + 1));
        }
        i += 1;
    }
    t
}

/// A numeral of digits has a non-negative value.
proof fn lemma_dec_value_nonneg(s: Seq<u8>)
    requires
        all_digits(s),
    ensures
        dec_value(s) >= 0,
    decreases s.len(),
{
    if s.len() > 0 {
        assert(all_digits(s.drop_last()));
        lemma_dec_value_nonneg(s.drop_last());
    }
}

/// A numeral of digits is at least the value of any of its prefixes.
proof fn lemma_dec_value_prefix(s: Seq<u8>, k: int)
    requires
        0 <= k <= s.len(),
        all_digits(s),
    ensures
        dec_value(s) >= dec_value(s.take(k)),
    decreases s.len(),
{
    if k == s.len() {
        assert(s.take(k) =~= s);
    } else {
        assert(all_digits(s.drop_last()));
        lemma_dec_value_prefix(s.drop_last(), k);
        assert(s.drop_last().take(k) =~= s.take(k));
        lemma_dec_value_nonneg(s.drop_last());
    }
}

/// The value of one trimmed line: its decimal value, or zero on any parse
/// failure (empty, a stray character, or overflow past `u64::MAX`).
fn parse_token(tok: &[u8]) -> (v: u64)
    ensures
        v == token_value(tok@),
{
    let n = tok.len();
    let start: usize = if n > 0 && tok[0] == 43 {
        1
    } else {
        0
    };
    let ghost d = numeric_part(tok@);
    proof {
        assert(d =~= tok@.skip(start as int));
    }
    if n == start {
        return 0;
    }
    let mut acc: u64 = 0;
    let mut i: usize = start;
    proof {
        assert(d.take(0) =~= Seq::<u8>::empty());
    }
    while i < n
        invariant
            start <= i <= n,
            n == tok@.len(),
            d == numeric_part(tok@),
            d == tok@.skip(start as int),
            d.len() == n - start,
            forall|t: int| 0 <= t < i - start ==> is_dec_digit(#[trigger] d[t]),
            acc == dec_value(d.take(i - start)),
        decreases n - i,
    {
        let b = tok[i];
        proof {
            assert(d[i - start] == tok@[i as int]);
        }
        if b < 48 || b > 57 {
            proof {
                assert(!is_dec_digit(d[i - start]));
                assert(!all_digits(d));
            }
            return 0;
        }
        let digit: u64 = (b - 48) as u64;
        proof {
            assert(d.take(i - start + 1).drop_last() =~= d.take(i - start));
            assert(d.take(i - start + 1).last() == d[i - start]);
            assert(dec_value(d.take(i - start + 1)) == acc * 10 + digit);
        }
        if acc > (u64::MAX - digit) / 10 {
            proof {
                let hi = (u64::MAX - digit) as int;
                assert(hi == 10 * (hi / 10) + hi % 10);
                assert(acc * 10 + digit > u64::MAX);
                if all_digits(d) {
                    assert(forall|t: int| 0 <= t <= i - start ==> is_dec_digit(#[trigger] d[t]));
                    lemma_dec_value_prefix(d, i - start + 1);
                    assert(dec_value(d) > u64::MAX);
                }
            }
            return 0;
        }
        proof {
            let hi = (u64::MAX - digit) as int;
            assert(hi == 10 * (hi / 10) + hi % 10);
            assert(acc * 10 + digit <= u64::MAX);
        }
        acc = acc * 10 + digit;
        i += 1;
    }
    proof {
        assert(d.take(n - start) =~= d);
        assert(all_digits(d));
    }
    acc
}

/// Trimming each line of one more segment appends that segment trimmed.
proof fn lemma_trimmed_views_step(ls: Seq<Seq<u8>>, k: int)
    requires
        0 <= k < ls.len(),
    ensures
        trimmed_views(ls.take(k + 1)) == trimmed_views(ls.take(k)).push(trimmed(ls[k])),
{
    assert(trimmed_views(ls.take(k + 1)) =~= trimmed_views(ls.take(k)).push(trimmed(ls[k])));
}

/// Filtering after appending keeps the new segment exactly when non-empty.
proof fn lemma_keep_nonempty_push(m: Seq<Seq<u8>>, x: Seq<u8>)
    ensures
        x.len() > 0 ==> keep_nonempty(m.push(x)) == keep_nonempty(m).push(x),
        x.len() == 0 ==> keep_nonempty(m.push(x)) == keep_nonempty(m),
{
    broadcast use Seq::lemma_filter_push;

}

/// The field values of one more field append that field's value.
proof fn lemma_token_values_push(fs: Seq<Seq<u8>>, x: Seq<u8>)
    ensures
        token_values(fs.push(x)) == token_values(fs).push(token_value(x)),
{
    assert(token_values(fs.push(x)) =~= token_values(fs).push(token_value(x)));
}

/// With no lines, there are no fields.
proof fn lemma_fields_empty(ls: Seq<Seq<u8>>)
    ensures
        token_values(keep_nonempty(trimmed_views(ls.take(0)))) == Seq::<u64>::empty(),
{
    reveal(Seq::filter);
    assert(ls.take(0) =~= Seq::<Seq<u8>>::empty());
    assert(trimmed_views(ls.take(0)) =~= Seq::<Seq<u8>>::empty());
    assert(token_values(keep_nonempty(trimmed_views(ls.take(0)))) =~= Seq::<u64>::empty());
}

/// Once every line is processed, the accumulated fields are the fields of
/// the whole output.
proof fn lemma_fields_final(out: Seq<u8>, ls: Seq<Seq<u8>>)
    requires
        ls == split_lines(out),
    ensures
        keep_nonempty(trimmed_views(ls.take(ls.len() as int))) == sampler_fields(out),
{
    assert(ls.take(ls.len() as int) =~= ls);
}

/// One field of the output, read off the accumulated values.
proof fn lemma_sampler_field_value(out: Seq<u8>, vals: Seq<u64>, i: int)
    requires
        vals == token_values(sampler_fields(out)),
        0 <= i,
    ensures
        sampler_field(out, i) == (if i < vals.len() {
            vals[i]
        } else {
            0
        }),
{
}

/// Reads the sampler output: the first four non-empty trimmed lines, in
/// order, as offset, capacity, soft threshold and hard threshold; a missing
/// line or a parse failure leaves the corresponding figure zero.
pub fn parse_disk_output(out: &[u8]) -> (d: DiskState)
    ensures
        d == parsed_disk(out@),
{
    let lines = split_lines_bytes(out);
    let ghost ls = line_views(lines@);
    let mut vals: Vec<u64> = Vec::new();
    let mut k: usize = 0;
    proof {
        lemma_fields_empty(ls);
        assert(vals@ =~= Seq::<u64>::empty());
    }
    while k < lines.len()
        invariant
            0 <= k <= lines@.len(),
            ls == line_views(lines@),
            vals@ == token_values(keep_nonempty(trimmed_views(ls.take(k as int)))),
        decreases lines@.len() - k,
    {
        let t = trim_bytes(lines[k].as_slice());
        let ghost tv = trimmed(ls[k as int]);
        let ghost prev = trimmed_views(ls.take(k as int));
        proof {
            assert(t@ == tv);
            lemma_trimmed_views_step(ls, k as int);
            lemma_keep_nonempty_push(prev, tv);
        }
        if t.len() > 0 {
            let v = parse_token(t.as_slice());
            vals.push(v);
            proof {
                lemma_token_values_push(keep_nonempty(prev), tv);
            }
        }
        k += 1;
    }
    proof {
        lemma_fields_final(out@, ls);
        assert(vals@ == token_values(sampler_fields(out@)));
        lemma_sampler_field_value(out@, vals@, 0);
        lemma_sampler_field_value(out@, vals@, 1);
        lemma_sampler_field_value(out@, vals@, 2);
        lemma_sampler_field_value(out@, vals@, 3);
    }
    let offset: u64 = if vals.len() > 0 {
        vals[0]
    } else {
        0
    };
    let capacity: u64 = if vals.len() > 1 {
        vals[1]
    } else {
        0
    };
    let soft_threshold: u64 = if vals.len() > 2 {
        vals[2]
    } else {
        0
    };
    let hard_threshold: u64 = if vals.len() > 3 {
        vals[3]
    } else {
        0
    };
    DiskState::new(offset, capacity, soft_threshold, hard_threshold)
}


impl Clone for WorkerError {
    fn clone(&self) -> (e: Self)
        ensures
            e == *self,
    {
        match self {
            WorkerError::StateError { message } => WorkerError::StateError {
                message: message.clone(),
            },
            WorkerError::IoError { message } => WorkerError::IoError { message: message.clone() },
            WorkerError::DatabaseError { message } => WorkerError::DatabaseError {
                message: message.clone(),
            },
        }
    }
}

/// Login `i` matches the database name: its lowercase form occurs in the
/// lowercase name.
pub open spec fn owner_match(users: Seq<UserConfig>, name: Seq<char>, i: int) -> bool {
    is_substring_of(lower_of(users[i].login@), lower_of(name))
}

/// Some login matches the name (stated through the first match).
pub open spec fn has_owner(users: Seq<UserConfig>, name: Seq<char>) -> bool {
    exists|i: int|
        0 <= i < users.len() && #[trigger] owner_match(users, name, i) && (forall|j: int|
            0 <= j < i ==> !owner_match(users, name, j))
}

/// The position of the first matching login.
pub open spec fn owner_index(users: Seq<UserConfig>, name: Seq<char>) -> int {
    choose|i: int|
        0 <= i < users.len() && #[trigger] owner_match(users, name, i) && (forall|j: int|
            0 <= j < i ==> !owner_match(users, name, j))
}

/// The owner attributed to a database: the lowercase login of the first
/// configured user whose lowercase login occurs in the lowercase name, if
/// any.
pub open spec fn owner_for(users: Seq<UserConfig>, name: Seq<char>) -> Option<Seq<char>> {
    if has_owner(users, name) {
        Some(lower_of(users[owner_index(users, name)].login@))
    } else {
        None
    }
}

/// The record derived from one listing row.
pub open spec fn record_for(users: Seq<UserConfig>, row: DatabaseInfoView) -> DatabaseView {
    DatabaseView {
        name: row.name,
        user: owner_for(users, row.name),
        modified: row.modified,
        size: row.size,
    }
}

/// The row values of a listing.
pub open spec fn row_views(rows: Seq<DatabaseInfo>) -> Seq<DatabaseInfoView> {
    rows.map_values(|r: DatabaseInfo| r@)
}

/// The records derived from a listing, row by row.
pub open spec fn records_for(users: Seq<UserConfig>, rows: Seq<DatabaseInfoView>) -> Seq<
    DatabaseView,
> {
    rows.map_values(|r: DatabaseInfoView| record_for(users, r))
}

/// The catalog a successful refresh installs: the derived records, keyed by
/// name.
pub open spec fn refreshed_catalog(users: Seq<UserConfig>, rows: Seq<DatabaseInfoView>) -> Seq<
    DatabaseView,
> {
    catalog_put_all(Seq::<DatabaseView>::empty(), records_for(users, rows))
}

/// The store value a successful catalog refresh leaves: the catalog is
/// derived from the listing alone, the quota is untouched.
pub open spec fn state_after_refresh(
    pre: StateView,
    users: Seq<UserConfig>,
    rows: Seq<DatabaseInfoView>,
) -> StateView {
    StateView { catalog: refreshed_catalog(users, rows), disk: pre.disk }
}

/// A successful refresh determines the catalog from the listing alone:
/// whatever two stores held before, refreshing both from the same listing
/// leaves equal catalogs. Nothing carries over from the previous contents,
/// so the records enumerable after a successful refresh are exactly the
/// records derived from that listing.
pub proof fn lemma_refresh_no_carry_over(
    pre1: StateView,
    pre2: StateView,
    users: Seq<UserConfig>,
    rows: Seq<DatabaseInfoView>,
)
    ensures
        state_after_refresh(pre1, users, rows).catalog == state_after_refresh(
            pre2,
            users,
            rows,
        ).catalog,
{
}

/// Refreshing the catalog twice in a row from an unchanged listing yields
/// the same store as refreshing once: no duplication, no loss.
pub proof fn lemma_refresh_idempotent(
    pre: StateView,
    users: Seq<UserConfig>,
    rows: Seq<DatabaseInfoView>,
)
    ensures
        state_after_refresh(state_after_refresh(pre, users, rows), users, rows)
            == state_after_refresh(pre, users, rows),
{
}

/// The first entry of `lowers` that occurs in `name_lower`, scanning in
/// order.
fn resolve_owner(lowers: &Vec<String>, name_lower: &str) -> (r: Option<usize>)
    ensures
        r matches Some(i) ==> i < lowers@.len() && is_substring_of(lowers@[i as int]@, name_lower@)
            && (forall|j: int| 0 <= j < i ==> !is_substring_of(#[trigger] lowers@[j]@, name_lower@)),
        r is None ==> forall|j: int|
            0 <= j < lowers@.len() ==> !is_substring_of(#[trigger] lowers@[j]@, name_lower@),
{
    let n = lowers.len();
    let mut i: usize = 0;
    while i < n
        invariant
            0 <= i <= n,
            n == lowers@.len(),
            forall|j: int| 0 <= j < i ==> !is_substring_of(#[trigger] lowers@[j]@, name_lower@),
        decreases n - i,
    {
        if contains_str(name_lower, lowers[i].as_str()) {
            return Some(i);
        }
        i += 1;
    }
    None
}

/// Mapping one more row appends that row's record.
proof fn lemma_records_for_step(users: Seq<UserConfig>, rv: Seq<DatabaseInfoView>, k: int)
    requires
        0 <= k < rv.len(),
    ensures
        records_for(users, rv.take(k + 1)) == records_for(users, rv.take(k)).push(
            record_for(users, rv[k]),
        ),
{
    assert(records_for(users, rv.take(k + 1)) =~= records_for(users, rv.take(k)).push(
        record_for(users, rv[k]),
    ));
}

/// Derives the records of a listing: each row keeps its name, timestamp and
/// size, and is attributed to the first configured user whose lowercase
/// login occurs in the row's lowercase name.
pub fn resolve_records(users: &Vec<UserConfig>, rows: &Vec<DatabaseInfo>) -> (records: Vec<
    Database,
>)
    ensures
        views_of(records@) == records_for(users@, row_views(rows@)),
{
    let un = users.len();
    let mut lowers: Vec<String> = Vec::new();
    let mut u: usize = 0;
    while u < un
        invariant
            0 <= u <= un,
            un == users@.len(),
            lowers@.len() == u,
            forall|t: int| 0 <= t < u ==> #[trigger] lowers@[t]@ == lower_of(users@[t].login@),
        decreases un - u,
    {
        let low = lowercase(users[u].login());
        lowers.push(low);
        u += 1;
    }
    let rn = rows.len();
    let ghost rv = row_views(rows@);
    let mut records: Vec<Database> = Vec::new();
    proof {
        assert(views_of(records@) =~= records_for(users@, rv.take(0)));
    }
    let mut k: usize = 0;
    while k < rn
        invariant
            0 <= k <= rn,
            rn == rows@.len(),
            rv == row_views(rows@),
            un == users@.len(),
            lowers@.len() == un,
            forall|t: int| 0 <= t < un ==> #[trigger] lowers@[t]@ == lower_of(users@[t].login@),
            views_of(records@) == records_for(users@, rv.take(k as int)),
        decreases rn - k,
    {
        let row = &rows[k];
        let name_lower = lowercase(row.name.as_str());
        proof {
            assert(rv[k as int] == row@);
            assert(name_lower@ == lower_of(row@.name));
        }
        let owner = resolve_owner(&lowers, name_lower.as_str());
        let db = match owner {
            Some(i) => {
                proof {
                    assert(owner_match(users@, row@.name, i as int));
                    assert forall|j: int| 0 <= j < i implies !owner_match(
                        users@,
                        row@.name,
                        j,
                    ) by {
                        assert(lowers@[j]@ == lower_of(users@[j].login@));
                        assert(!is_substring_of(lowers@[j]@, name_lower@));
                    }
                    assert(has_owner(users@, row@.name));
                    let c = owner_index(users@, row@.name);
                    assert(0 <= c < users@.len() && owner_match(users@, row@.name, c) && (
                    forall|j: int| 0 <= j < c ==> !owner_match(users@, row@.name, j)));
                    assert(c == i as int) by {
                        if c < i as int {
                            assert(!owner_match(users@, row@.name, c));
                        } else if c > i as int {
                            assert(!owner_match(users@, row@.name, i as int));
                        }
                    }
                }
                Database::new(row.name.as_str(), Some(&lowers[i]), row.modified, row.size)
            },
            None => {
                proof {
                    assert(!has_owner(users@, row@.name)) by {
                        if has_owner(users@, row@.name) {
                            let c = owner_index(users@, row@.name);
                            assert(owner_match(users@, row@.name, c));
                            assert(lowers@[c]@ == lower_of(users@[c].login@));
                            assert(!is_substring_of(lowers@[c]@, name_lower@));
                        }
                    }
                }
                Database::new(row.name.as_str(), None, row.modified, row.size)
            },
        };
        proof {
            assert(db@ == record_for(users@, rv[k as int]));
            lemma_records_for_step(users@, rv, k as int);
        }
        records.push(db);
        proof {
            assert(views_of(records@) =~= views_of(records@.drop_last()).push(db@));
            assert(records@.drop_last() =~= records@.subrange(0, records@.len() - 1));
        }
        k += 1;
    }
    proof {
        assert(rv.take(rn as int) =~= rv);
    }
    records
}

/// The sequential core of one catalog refresh: a successful listing
/// replaces the catalog wholesale with the derived records; a failed
/// listing leaves the store exactly as it was and reports the failure.
pub fn refresh_catalog(state: &mut State, users: &Vec<UserConfig>, list: &Result<
    Vec<DatabaseInfo>,
    DatabaseError,
>) -> (r: WorkerResult<()>)
    requires
        old(state).wf(),
    ensures
        final(state).wf(),
        list matches Err(e) ==> final(state)@ == old(state)@ && (r matches Err(w) && w
            matches WorkerError::DatabaseError { .. }),
        list matches Ok(rows) ==> r.is_ok() && final(state)@ == state_after_refresh(
            old(state)@,
            users@,
            row_views(rows@),
        ),
{
    match list {
        Err(e) => Err(WorkerError::database_error(e)),
        Ok(rows) => {
            let records = resolve_records(users, rows);
            state.replace_catalog(records);
            Ok(())
        },
    }
}

/// The sequential core of one disk refresh: fixed figures are re-asserted
/// as configured; with the command variant a captured sampler output is
/// parsed and installed, and a sampling failure leaves the store exactly as
/// it was and reports the failure. The catalog is never touched.
pub fn refresh_disk(state: &mut State, disk: &DiskConfig, sample: &WorkerResult<Vec<u8>>) -> (r:
    WorkerResult<()>)
    requires
        old(state).wf(),
    ensures
        final(state).wf(),
        final(state)@.catalog == old(state)@.catalog,
        *disk matches DiskConfig::Fixed { offset, capacity, soft_threshold, hard_threshold }
            ==> r.is_ok() && final(state)@.disk == (DiskState {
            offset,
            capacity,
            soft_threshold,
            hard_threshold,
        }),
        *disk matches DiskConfig::Command { .. } ==> match *sample {
            Ok(ref bytes) => r.is_ok() && final(state)@.disk == parsed_disk(bytes@),
            Err(ref e) => final(state)@ == old(state)@ && (r matches Err(e2) && e2 == *e),
        },
{
    match disk {
        DiskConfig::Fixed { offset, capacity, soft_threshold, hard_threshold } => {
            state.set_disk_state(*offset, *capacity, *soft_threshold, *hard_threshold);
            Ok(())
        },
        DiskConfig::Command { .. } => {
            match sample {
                Ok(bytes) => {
                    let d = parse_disk_output(bytes.as_slice());
                    state.set_disk_state(
                        d.offset(),
                        d.capacity(),
                        d.soft_threshold(),
                        d.hard_threshold(),
                    );
                    Ok(())
                },
                Err(e) => Err(e.clone()),
            }
        },
    }
}

/// Updates the cached quota: with the fixed variant the configured figures
/// are re-asserted; with the command variant the captured sampler output is
/// parsed (the caller passes the bytes it captured, or the launch/read
/// failure). The store is written as one transaction.
pub fn update_disk(config: &Config, state: &StateRef, sample: Result<Vec<u8>, WorkerError>) -> (r:
    WorkerResult<()>)
    ensures
        config.server.disk matches DiskConfig::Fixed { .. } ==> r.is_ok(),
        config.server.disk matches DiskConfig::Command { .. } ==> (r.is_ok() <==> sample.is_ok())
            && (sample matches Err(e) ==> r matches Err(e2) && e2 == e),
{
    let (mut st, handle) = state.lock().acquire_write();
    let r = refresh_disk(&mut st, config.server().disk(), &sample);
    handle.release_write(st);
    r
}

/// Updates the catalog from one listing outcome: a successful listing
/// replaces the catalog wholesale, as one locked transaction; a failed
/// listing leaves the previous snapshot authoritative and returns the
/// failure to the caller.
pub fn update_databases(config: &Config, state: &StateRef, list: &Result<
    Vec<DatabaseInfo>,
    DatabaseError,
>) -> (r: WorkerResult<()>)
    ensures
        list matches Ok(rows) ==> r.is_ok(),
        list matches Err(e) ==> r matches Err(w) && w matches WorkerError::DatabaseError { .. },
{
    let (mut st, handle) = state.lock().acquire_write();
    let r = refresh_catalog(&mut st, config.users(), list);
    handle.release_write(st);
    r
}

/// The refresh worker: the configuration and the store it commits into.
/// The surrounding application runs its timer loop and hands in the sampler
/// output and listing of each cycle.
pub struct Worker {
    pub config: Config,
    pub state: StateRef,
}

impl Worker {
    pub fn new(config: Config, state: StateRef) -> (w: Worker)
        ensures
            w.config == config,
            w.state == state,
    {
        Worker { config, state }
    }

    /// One scheduled cycle: the disk refresh, then the catalog refresh.
    /// Both outcomes are returned for the caller to log; the scheduled loop
    /// never propagates them, so a transient upstream outage leaves the
    /// previous snapshot readable.
    pub fn run_cycle(&self, sample: Result<Vec<u8>, WorkerError>, list: &Result<
        Vec<DatabaseInfo>,
        DatabaseError,
    >) -> (res: (WorkerResult<()>, WorkerResult<()>))
        ensures
            self.config.server.disk matches DiskConfig::Fixed { .. } ==> res.0.is_ok(),
            self.config.server.disk matches DiskConfig::Command { .. } ==> (res.0.is_ok()
                <==> sample.is_ok()),
            list matches Ok(rows) ==> res.1.is_ok(),
            list matches Err(e) ==> res.1 matches Err(w) && w matches WorkerError::DatabaseError {
                ..
            },
    {
        let disk_result = update_disk(&self.config, &self.state, sample);
        let catalog_result = update_databases(&self.config, &self.state, list);
        (disk_result, catalog_result)
    }
}

} // verus!
