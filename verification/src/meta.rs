//! Meta-commands: the commands of the shell that begin with a dot and are
//! not statements.
//!
//! `.exit` ends the session. `.size` reports how many rows the table holds.

use vstd::prelude::*;
use vstd::string::StringExecFns;
use vstd::string::StringSliceAdditionalSpecFns;
use crate::statement::same_bytes;
use crate::table::Table;

verus! {

/// What a meta-command came to. `Success` carries the line to show.
#[derive(Debug, Clone, PartialEq, Eq)]
pub enum MetaCommandResult {
    Success(String),
    Exit,
    Unrecognized,
}

/// The mathematical value of a `MetaCommandResult`.
pub enum MetaCommandData {
    Success(Seq<char>),
    Exit,
    Unrecognized,
}

impl View for MetaCommandResult {
    type V = MetaCommandData;

    open spec fn view(&self) -> MetaCommandData {
        match self {
            MetaCommandResult::Success(line) => MetaCommandData::Success(line@),
            MetaCommandResult::Exit => MetaCommandData::Exit,
            MetaCommandResult::Unrecognized => MetaCommandData::Unrecognized,
        }
    }
}

/// The character of a decimal digit.
pub open spec fn digit_char(d: nat) -> char
    recommends
        d < 10,
{
    ((0x30 + d) as u8) as char
}

/// A number in decimal, without leading zeros.
pub open spec fn decimal_text(n: nat) -> Seq<char>
    decreases n,
{
    if n < 10 {
        seq![digit_char(n)]
    } else {
        decimal_text(n / 10).push(digit_char(n % 10))
    }
}

/// The line with which `.size` reports a table of `nrows` rows.
pub open spec fn size_report(nrows: nat) -> Seq<char> {
    decimal_text(nrows) + " row(s)"@
}

/// What the meta-command spelled by the bytes `command` comes to on a table
/// of `nrows` rows.
pub open spec fn meta_command(command: Seq<u8>, nrows: nat) -> MetaCommandData {
    if command == ".exit".spec_bytes() {
        MetaCommandData::Exit
    } else if command == ".size".spec_bytes() {
        MetaCommandData::Success(size_report(nrows))
    } else {
        MetaCommandData::Unrecognized
    }
}

/// The text of a decimal digit.
fn digit_text(d: usize) -> (text: &'static str)
    requires
        d < 10,
    ensures
        text@ == seq![digit_char(d as nat)],
{
    proof {
        reveal_strlit("0");
        reveal_strlit("1");
        reveal_strlit("2");
        reveal_strlit("3");
        reveal_strlit("4");
        reveal_strlit("5");
        reveal_strlit("6");
        reveal_strlit("7");
        reveal_strlit("8");
        reveal_strlit("9");
    }
    let text: &'static str = if d == 0 {
        "0"
    } else if d == 1 {
        "1"
    } else if d == 2 {
        "2"
    } else if d == 3 {
        "3"
    } else if d == 4 {
        "4"
    } else if d == 5 {
        "5"
    } else if d == 6 {
        "6"
    } else if d == 7 {
        "7"
    } else if d == 8 {
        "8"
    } else {
        "9"
    };
    assert(text@ =~= seq![digit_char(d as nat)]);
    text
}

/// Appends `n` in decimal to `out`.
fn push_decimal(n: usize, out: &mut String)
    ensures
        final(out)@ == old(out)@ + decimal_text(n as nat),
    decreases n,
{
    if n >= 10 {
        push_decimal(n / 10, out);
    }
    out.append(digit_text(n % 10));
    assert(out@ =~= old(out)@ + decimal_text(n as nat));
}

/// The line with which `.size` reports a table of `nrows` rows.
pub fn size_line(nrows: usize) -> (line: String)
    ensures
        line@ == size_report(nrows as nat),
{
    let mut line = String::new();
    push_decimal(nrows, &mut line);
    line.append(" row(s)");
    assert(line@ =~= size_report(nrows as nat));
    line
}

/// Runs the meta-command `command` for `table`.
pub fn do_meta_command(command: &str, table: &Table) -> (result: MetaCommandResult)
    ensures
        result@ == meta_command(command.spec_bytes(), table@.nrows),
{
    let bytes: &[u8] = command.as_bytes();
    if same_bytes(bytes, ".exit".as_bytes()) {
        MetaCommandResult::Exit
    } else if same_bytes(bytes, ".size".as_bytes()) {
        MetaCommandResult::Success(size_line(table.nrows))
    } else {
        MetaCommandResult::Unrecognized
    }
}

} // verus!
