//! Statements, and the parser that turns a command line into one.
//!
//! Two commands are understood. `insert <id> <username> <email>` carries a row:
//! the identifier is a decimal number that fits 32 bits, the username has at
//! most 32 bytes and the email at most 255. `select` carries nothing.

use vstd::prelude::*;
use vstd::slice::slice_subrange;
use vstd::slice::slice_to_vec;
use vstd::string::StringSliceAdditionalSpecFns;
use crate::layout::ROW_EMAIL_SIZE;
use crate::layout::ROW_USERNAME_SIZE;
use crate::row::Row;
use crate::row::RowData;

verus! {

/// What a statement asks for.
#[derive(Debug, Clone, Copy, PartialEq, Eq)]
pub enum StatementKind {
    Insert,
    Select,
}

/// A parsed statement. An `Insert` carries the row to add.
#[derive(Debug, Clone, PartialEq, Eq)]
pub struct Statement {
    pub kind: StatementKind,
    pub row_to_insert: Option<Box<Row>>,
}

/// The mathematical value of a statement.
pub struct StatementData {
    pub kind: StatementKind,
    pub row_to_insert: Option<RowData>,
}

impl View for Statement {
    type V = StatementData;

    open spec fn view(&self) -> StatementData {
        StatementData {
            kind: self.kind,
            row_to_insert: match self.row_to_insert {
                Some(row) => Some(row@),
                None => None,
            },
        }
    }
}

impl StatementData {
    /// An `Insert` carries a row, and the row fits its slots.
    pub open spec fn wf(self) -> bool {
        self.kind is Insert ==> self.row_to_insert is Some && self.row_to_insert->0.fits()
    }
}

impl Statement {
    /// Whether an `Insert` carries a row that fits its slots.
    pub fn is_well_formed(&self) -> (b: bool)
        ensures
            b == self@.wf(),
    {
        match self.kind {
            StatementKind::Insert => match &self.row_to_insert {
                Some(row) => row.fits(),
                None => false,
            },
            StatementKind::Select => true,
        }
    }
}

/// The bytes that separate words: space, tab, line feed, form feed and
/// carriage return.
pub open spec fn is_space(b: u8) -> bool {
    b == 0x20 || b == 0x09 || b == 0x0a || b == 0x0c || b == 0x0d
}

/// Length of the word at the start of `s`: the index of its first separator,
/// or the length of `s` if it holds none.
pub open spec fn word_len(s: Seq<u8>) -> nat
    decreases s.len(),
{
    if s.len() == 0 || is_space(s[0]) {
        0
    } else {
        1 + word_len(s.drop_first())
    }
}

/// The words of `s`: its maximal runs of bytes that are not separators, in
/// the order in which they stand.
pub open spec fn words(s: Seq<u8>) -> Seq<Seq<u8>>
    decreases s.len(),
{
    if s.len() == 0 {
        Seq::empty()
    } else if is_space(s[0]) {
        words(s.drop_first())
    } else {
        proof {
            lemma_word_len(s);
        }
        seq![s.take(word_len(s) as int)] + words(s.skip(word_len(s) as int))
    }
}

/// `word_len` stays inside `s`, counts no separator, and stops at one or at
/// the end of `s`.
pub proof fn lemma_word_len(s: Seq<u8>)
    ensures
        word_len(s) <= s.len(),
        s.len() > 0 && !is_space(s[0]) ==> word_len(s) > 0,
        forall|i: int| 0 <= i < word_len(s) ==> !is_space(s[i]),
        word_len(s) < s.len() ==> is_space(s[word_len(s) as int]),
    decreases s.len(),
{
    if s.len() == 0 || is_space(s[0]) {
    } else {
        let rest = s.drop_first();
        lemma_word_len(rest);
        assert forall|i: int| 0 <= i < word_len(s) implies !is_space(s[i]) by {
            if i > 0 {
                assert(s[i] == rest[i - 1]);
            }
        }
        assert(word_len(s) < s.len() ==> s[word_len(s) as int] == rest[word_len(rest) as int]);
    }
}

/// An index that counts no separator and stops at one, or at the end of `s`,
/// is `word_len`.
pub proof fn lemma_word_len_is(s: Seq<u8>, k: int)
    requires
        0 <= k <= s.len(),
        forall|i: int| 0 <= i < k ==> !is_space(s[i]),
        k < s.len() ==> is_space(s[k]),
    ensures
        word_len(s) == k,
    decreases s.len(),
{
    if s.len() == 0 || is_space(s[0]) {
    } else {
        let rest = s.drop_first();
        assert forall|i: int| 0 <= i < k - 1 implies !is_space(rest[i]) by {
            assert(rest[i] == s[i + 1]);
        }
        lemma_word_len_is(rest, k - 1);
    }
}

/// A decimal digit.
pub open spec fn is_digit(b: u8) -> bool {
    0x30 <= b <= 0x39
}

/// Every byte of `s` is a decimal digit.
pub open spec fn all_digits(s: Seq<u8>) -> bool {
    forall|i: int| 0 <= i < s.len() ==> is_digit(#[trigger] s[i])
}

/// The number that a run of decimal digits spells.
pub open spec fn decimal_value(digits: Seq<u8>) -> nat
    decreases digits.len(),
{
    if digits.len() == 0 {
        0
    } else {
        decimal_value(digits.drop_last()) * 10 + (digits.last() - 0x30) as nat
    }
}

/// The identifier that `text` spells: an optional `+`, and one or more decimal
/// digits whose value fits 32 bits.
pub open spec fn parse_u32(text: Seq<u8>) -> Option<u32> {
    let digits = if text.len() > 0 && text[0] == 0x2b {
        text.drop_first()
    } else {
        text
    };
    if digits.len() > 0 && all_digits(digits) && decimal_value(digits) <= u32::MAX {
        Some(decimal_value(digits) as u32)
    } else {
        None
    }
}

/// The statement that a command line spells, if it spells one.
pub open spec fn parse_statement(command: Seq<u8>) -> Option<StatementData> {
    if "insert ".spec_bytes().is_prefix_of(command) {
        let w = words(command);
        if w.len() == 4 && w[2].len() <= ROW_USERNAME_SIZE && w[3].len() <= ROW_EMAIL_SIZE {
            match parse_u32(w[1]) {
                Some(id) => Some(
                    StatementData {
                        kind: StatementKind::Insert,
                        row_to_insert: Some(RowData { id, username: w[2], email: w[3] }),
                    },
                ),
                None => None,
            }
        } else {
            None
        }
    } else if command == "select".spec_bytes() || "select ".spec_bytes().is_prefix_of(command) {
        Some(StatementData { kind: StatementKind::Select, row_to_insert: None })
    } else {
        None
    }
}

/// A longer run of digits spells no smaller number.
proof fn lemma_decimal_value_grows(digits: Seq<u8>, k: int)
    requires
        0 <= k <= digits.len(),
        all_digits(digits),
    ensures
        decimal_value(digits.take(k)) <= decimal_value(digits),
    decreases digits.len(),
{
    if k == digits.len() {
        assert(digits.take(k) =~= digits);
    } else {
        let front = digits.drop_last();
        assert(front.take(k) =~= digits.take(k));
        assert(is_digit(digits.last()));
        assert forall|i: int| 0 <= i < front.len() implies is_digit(#[trigger] front[i]) by {
            assert(front[i] == digits[i]);
        }
        lemma_decimal_value_grows(front, k);
    }
}

/// Whether `b` separates words.
fn is_space_byte(b: u8) -> (r: bool)
    ensures
        r == is_space(b),
{
    b == 0x20 || b == 0x09 || b == 0x0a || b == 0x0c || b == 0x0d
}

/// Whether `bytes` begins with `prefix`.
pub(crate) fn starts_with(bytes: &[u8], prefix: &[u8]) -> (r: bool)
    ensures
        r == prefix@.is_prefix_of(bytes@),
{
    if prefix.len() > bytes.len() {
        return false;
    }
    let mut i: usize = 0;
    while i < prefix.len()
        invariant
            i <= prefix.len() <= bytes.len(),
            forall|j: int| 0 <= j < i ==> prefix@[j] == bytes@[j],
        decreases prefix.len() - i,
    {
        if prefix[i] != bytes[i] {
            assert(bytes@.subrange(0, prefix@.len() as int)[i as int] != prefix@[i as int]);
            return false;
        }
        i += 1;
    }
    assert(prefix@ =~= bytes@.subrange(0, prefix@.len() as int));
    true
}

/// Whether `a` and `b` hold the same bytes.
pub(crate) fn same_bytes(a: &[u8], b: &[u8]) -> (r: bool)
    ensures
        r == (a@ == b@),
{
    if a.len() != b.len() {
        return false;
    }
    let r = starts_with(a, b);
    assert(a@.subrange(0, a@.len() as int) =~= a@);
    r
}

/// The words of `bytes`.
fn split_words(bytes: &[u8]) -> (out: Vec<&[u8]>)
    ensures
        out.len() == words(bytes@).len(),
        forall|k: int| 0 <= k < out.len() ==> (#[trigger] out[k])@ == words(bytes@)[k],
{
    let mut out: Vec<&[u8]> = Vec::new();
    let ghost mut found: Seq<Seq<u8>> = Seq::empty();
    let n: usize = bytes.len();
    let mut i: usize = 0;
    assert(bytes@.skip(0) =~= bytes@);
    assert(found + words(bytes@) =~= words(bytes@));
    while i < n
        invariant
            i <= n,
            n == bytes.len(),
            out.len() == found.len(),
            forall|k: int| 0 <= k < out.len() ==> (#[trigger] out[k])@ == found[k],
            words(bytes@) == found + words(bytes@.skip(i as int)),
        decreases n - i,
    {
        let ghost rest = bytes@.skip(i as int);
        if is_space_byte(bytes[i]) {
            assert(rest.drop_first() =~= bytes@.skip(i + 1));
            i += 1;
        } else {
            let start: usize = i;
            while i < n && !is_space_byte(bytes[i])
                invariant
                    start <= i <= n,
                    n == bytes.len(),
                    rest == bytes@.skip(start as int),
                    forall|j: int| 0 <= j < i - start ==> !is_space(rest[j]),
                decreases n - i,
            {
                i += 1;
            }
            proof {
                lemma_word_len_is(rest, i - start);
                assert(rest.skip(i - start) =~= bytes@.skip(i as int));
                assert(rest.take(i - start) =~= bytes@.subrange(start as int, i as int));
                found = found.push(rest.take(i - start));
                assert(found + words(bytes@.skip(i as int)) =~= found.drop_last() + words(rest));
            }
            out.push(slice_subrange(bytes, start, i));
        }
    }
    assert(bytes@.skip(n as int).len() == 0);
    assert(found + words(bytes@.skip(n as int)) =~= found);
    out
}

/// The identifier that `text` spells, if it spells one.
fn parse_id(text: &[u8]) -> (id: Option<u32>)
    ensures
        id == parse_u32(text@),
{
    let n: usize = text.len();
    let start: usize = if n > 0 && text[0] == 0x2b {
        1
    } else {
        0
    };
    let ghost digits = if text@.len() > 0 && text@[0] == 0x2b {
        text@.drop_first()
    } else {
        text@
    };
    assert(digits =~= text@.skip(start as int));
    if start == n {
        return None;
    }
    let mut value: u32 = 0;
    let mut i: usize = start;
    while i < n
        invariant
            start <= i <= n,
            start < n,
            n == text.len(),
            digits == text@.skip(start as int),
            digits == if text@.len() > 0 && text@[0] == 0x2b {
                text@.drop_first()
            } else {
                text@
            },
            all_digits(digits.take(i - start)),
            value == decimal_value(digits.take(i - start)),
        decreases n - i,
    {
        let b: u8 = text[i];
        let ghost seen = digits.take(i - start + 1);
        assert(seen.drop_last() =~= digits.take(i - start));
        assert(seen.last() == b);
        if b < 0x30 || b > 0x39 {
            assert(!is_digit(digits[i - start]));
            return None;
        }
        assert(all_digits(seen)) by {
            assert forall|j: int| 0 <= j < seen.len() implies is_digit(#[trigger] seen[j]) by {
                if j < seen.len() - 1 {
                    assert(seen[j] == digits.take(i - start)[j]);
                }
            }
        }
        let d: u32 = (b - 0x30) as u32;
        if value > (u32::MAX - d) / 10 {
            proof {
                assert(decimal_value(seen) > u32::MAX);
                if all_digits(digits) {
                    lemma_decimal_value_grows(digits, i - start + 1);
                }
            }
            return None;
        }
        value = value * 10 + d;
        i += 1;
    }
    assert(digits.take(n - start) =~= digits);
    Some(value)
}

/// Parses a command line into a statement.
pub fn prepare_statement(command: &str) -> (statement: Option<Statement>)
    ensures
        match statement {
            Some(s) => parse_statement(command.spec_bytes()) == Some(s@),
            None => parse_statement(command.spec_bytes()) is None,
        },
        statement matches Some(s) ==> s@.wf(),
{
    let bytes: &[u8] = command.as_bytes();
    if starts_with(bytes, "insert ".as_bytes()) {
        let found = split_words(bytes);
        if found.len() != 4 {
            return None;
        }
        let username: &[u8] = found[2];
        let email: &[u8] = found[3];
        if username.len() > ROW_USERNAME_SIZE || email.len() > ROW_EMAIL_SIZE {
            return None;
        }
        match parse_id(found[1]) {
            Some(id) => {
                let row = Row { id, username: slice_to_vec(username), email: slice_to_vec(email) };
                Some(Statement { kind: StatementKind::Insert, row_to_insert: Some(Box::new(row)) })
            },
            None => None,
        }
    } else if same_bytes(bytes, "select".as_bytes()) || starts_with(bytes, "select ".as_bytes()) {
        Some(Statement { kind: StatementKind::Select, row_to_insert: None })
    } else {
        None
    }
}

} // verus!
