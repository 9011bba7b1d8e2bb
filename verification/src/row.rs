//! The row codec: a row of the table and its fixed-width encoding.
//!
//! An encoded row is 291 bytes: the identifier as four big-endian bytes, the
//! username in a 32-byte slot and the email in a 255-byte slot. A text shorter
//! than its slot is followed by zero bytes; a text that fills its slot has no
//! terminator. Text is kept as bytes and is never checked for being UTF-8.

use vstd::prelude::*;
use vstd::slice::slice_subrange;
use vstd::slice::slice_to_vec;
use vstd::string::StrSliceExecFns;
use vstd::string::StringSliceAdditionalSpecFns;
use crate::layout::ROW_EMAIL_SIZE;
use crate::layout::ROW_EMAIL_START;
use crate::layout::ROW_ID_SIZE;
use crate::layout::ROW_SIZE;
use crate::layout::ROW_USERNAME_SIZE;
use crate::layout::ROW_USERNAME_START;

verus! {

/// A row of the table.
#[derive(Debug, Clone, PartialEq, Eq)]
pub struct Row {
    pub id: u32,
    pub username: Vec<u8>,
    pub email: Vec<u8>,
}

/// The mathematical value of a row.
pub struct RowData {
    pub id: u32,
    pub username: Seq<u8>,
    pub email: Seq<u8>,
}

impl View for Row {
    type V = RowData;

    open spec fn view(&self) -> RowData {
        RowData { id: self.id, username: self.username@, email: self.email@ }
    }
}

impl RowData {
    /// Both texts fit their slots.
    pub open spec fn fits(self) -> bool {
        &&& self.username.len() <= ROW_USERNAME_SIZE
        &&& self.email.len() <= ROW_EMAIL_SIZE
    }

    /// The row as it reads back once written: each text ends before its first
    /// zero byte.
    pub open spec fn stored(self) -> RowData {
        RowData { id: self.id, username: text_of(self.username), email: text_of(self.email) }
    }

    /// Neither text holds a zero byte.
    pub open spec fn zero_free(self) -> bool {
        &&& forall|i: int| 0 <= i < self.username.len() ==> self.username[i] != 0
        &&& forall|i: int| 0 <= i < self.email.len() ==> self.email[i] != 0
    }
}

/// `n` zero bytes.
pub open spec fn zeros(n: nat) -> Seq<u8> {
    Seq::new(n, |i: int| 0u8)
}

/// `buf` with the bytes from `at` on replaced by `data`.
pub open spec fn overwrite(buf: Seq<u8>, at: int, data: Seq<u8>) -> Seq<u8>
    recommends
        0 <= at,
        at + data.len() <= buf.len(),
{
    buf.subrange(0, at) + data + buf.subrange(at + data.len(), buf.len() as int)
}

/// The four bytes of an identifier, most significant first.
pub open spec fn id_bytes(id: u32) -> Seq<u8> {
    seq![
        (id / 0x100_0000) as u8,
        ((id / 0x1_0000) % 0x100) as u8,
        ((id / 0x100) % 0x100) as u8,
        (id % 0x100) as u8,
    ]
}

/// The identifier that four bytes spell, most significant first.
pub open spec fn id_value(bytes: Seq<u8>) -> u32
    recommends
        bytes.len() == ROW_ID_SIZE,
{
    (bytes[0] * 0x100_0000 + bytes[1] * 0x1_0000 + bytes[2] * 0x100 + bytes[3]) as u32
}

/// A text in a slot of `width` bytes: the text, and zero bytes after it.
pub open spec fn padded(text: Seq<u8>, width: nat) -> Seq<u8>
    recommends
        text.len() <= width,
{
    text + zeros((width - text.len()) as nat)
}

/// Length of the text in a slot: the index of its first zero byte, or the
/// slot's width if it holds none.
pub open spec fn text_len(slot: Seq<u8>) -> nat
    decreases slot.len(),
{
    if slot.len() == 0 || slot[0] == 0 {
        0
    } else {
        1 + text_len(slot.drop_first())
    }
}

/// The text in a slot.
pub open spec fn text_of(slot: Seq<u8>) -> Seq<u8> {
    slot.take(text_len(slot) as int)
}

/// The encoding of a row.
pub open spec fn encode_row(r: RowData) -> Seq<u8>
    recommends
        r.fits(),
{
    id_bytes(r.id) + padded(r.username, ROW_USERNAME_SIZE as nat) + padded(
        r.email,
        ROW_EMAIL_SIZE as nat,
    )
}

/// The row that 291 bytes encode.
pub open spec fn decode_row(bytes: Seq<u8>) -> RowData
    recommends
        bytes.len() == ROW_SIZE,
{
    RowData {
        id: id_value(bytes.subrange(0, ROW_USERNAME_START as int)),
        username: text_of(bytes.subrange(ROW_USERNAME_START as int, ROW_EMAIL_START as int)),
        email: text_of(bytes.subrange(ROW_EMAIL_START as int, ROW_SIZE as int)),
    }
}

/// `text_len` is the one index up to which no byte is zero and at which the
/// slot ends or holds a zero byte.
pub proof fn lemma_text_len(slot: Seq<u8>)
    ensures
        text_len(slot) <= slot.len(),
        forall|i: int| 0 <= i < text_len(slot) ==> slot[i] != 0,
        text_len(slot) < slot.len() ==> slot[text_len(slot) as int] == 0,
    decreases slot.len(),
{
    if slot.len() == 0 || slot[0] == 0 {
    } else {
        let rest = slot.drop_first();
        lemma_text_len(rest);
        assert forall|i: int| 0 <= i < text_len(slot) implies slot[i] != 0 by {
            if i > 0 {
                assert(slot[i] == rest[i - 1]);
            }
        }
        assert(text_len(slot) < slot.len() ==> slot[text_len(slot) as int] == rest[text_len(
            rest,
        ) as int]);
    }
}

/// An index up to which no byte is zero, and at which the slot ends or holds a
/// zero byte, is `text_len`.
pub proof fn lemma_text_len_is(slot: Seq<u8>, k: int)
    requires
        0 <= k <= slot.len(),
        forall|i: int| 0 <= i < k ==> slot[i] != 0,
        k < slot.len() ==> slot[k] == 0,
    ensures
        text_len(slot) == k,
    decreases slot.len(),
{
    if slot.len() == 0 || slot[0] == 0 {
    } else {
        let rest = slot.drop_first();
        assert(k > 0);
        assert forall|i: int| 0 <= i < k - 1 implies rest[i] != 0 by {
            assert(rest[i] == slot[i + 1]);
        }
        lemma_text_len_is(rest, k - 1);
    }
}

/// Padding a text does not change what reads back from its slot.
pub proof fn lemma_text_of_padded(text: Seq<u8>, width: nat)
    requires
        text.len() <= width,
    ensures
        text_of(padded(text, width)) == text_of(text),
{
    let slot = padded(text, width);
    let k = text_len(text);
    lemma_text_len(text);
    assert forall|i: int| 0 <= i < k implies slot[i] != 0 by {
        assert(slot[i] == text[i]);
    }
    lemma_text_len_is(slot, k as int);
    assert(slot.take(k as int) =~= text.take(k as int));
}

/// A text without a zero byte reads back whole.
pub proof fn lemma_text_of_zero_free(text: Seq<u8>)
    requires
        forall|i: int| 0 <= i < text.len() ==> text[i] != 0,
    ensures
        text_of(text) == text,
{
    lemma_text_len_is(text, text.len() as int);
    assert(text.take(text.len() as int) =~= text);
}

/// The four bytes of an identifier spell that identifier.
pub proof fn lemma_id_round_trip(id: u32)
    ensures
        id_bytes(id).len() == ROW_ID_SIZE,
        id_value(id_bytes(id)) == id,
{
}

/// Decoding the encoding of a row gives the row back: the identifier as it
/// was, and each text up to its first zero byte, or whole if it holds none.
pub proof fn lemma_round_trip(r: RowData)
    requires
        r.fits(),
    ensures
        encode_row(r).len() == ROW_SIZE,
        decode_row(encode_row(r)) == r.stored(),
        r.zero_free() ==> decode_row(encode_row(r)) == r,
{
    let bytes = encode_row(r);
    lemma_id_round_trip(r.id);
    assert(bytes.subrange(0, ROW_USERNAME_START as int) =~= id_bytes(r.id));
    assert(bytes.subrange(ROW_USERNAME_START as int, ROW_EMAIL_START as int) =~= padded(
        r.username,
        ROW_USERNAME_SIZE as nat,
    ));
    assert(bytes.subrange(ROW_EMAIL_START as int, ROW_SIZE as int) =~= padded(
        r.email,
        ROW_EMAIL_SIZE as nat,
    ));
    lemma_text_of_padded(r.username, ROW_USERNAME_SIZE as nat);
    lemma_text_of_padded(r.email, ROW_EMAIL_SIZE as nat);
    if r.zero_free() {
        lemma_text_of_zero_free(r.username);
        lemma_text_of_zero_free(r.email);
    }
}

/// A decoded row fits its slots and holds no zero byte.
pub proof fn lemma_decode_fits(bytes: Seq<u8>)
    requires
        bytes.len() == ROW_SIZE,
    ensures
        decode_row(bytes).fits(),
        decode_row(bytes).zero_free(),
{
    lemma_text_len(bytes.subrange(ROW_USERNAME_START as int, ROW_EMAIL_START as int));
    lemma_text_len(bytes.subrange(ROW_EMAIL_START as int, ROW_SIZE as int));
}

impl Row {
    /// A row with the given identifier and the bytes of the two texts.
    pub fn new(id: u32, username: &str, email: &str) -> (row: Row)
        ensures
            row@ == (RowData {
                id,
                username: username.spec_bytes(),
                email: email.spec_bytes(),
            }),
    {
        Row { id, username: username.as_bytes_vec(), email: email.as_bytes_vec() }
    }

    /// Whether both texts fit their slots.
    pub fn fits(&self) -> (b: bool)
        ensures
            b == self@.fits(),
    {
        self.username.len() <= ROW_USERNAME_SIZE && self.email.len() <= ROW_EMAIL_SIZE
    }
}

/// Writes `text` into the slot of `width` bytes that starts at `start`: the
/// text, and zero bytes up to the slot's end.
fn write_slot(text: &Vec<u8>, destination: &mut Vec<u8>, start: usize, width: usize)
    requires
        text.len() <= width,
        start + width <= old(destination).len(),
    ensures
        final(destination)@ == overwrite(old(destination)@, start as int, padded(text@, width as nat)),
{
    let ghost before = destination@;
    let ghost slot = padded(text@, width as nat);
    let mut i: usize = 0;
    while i < width
        invariant
            i <= width,
            text.len() <= width,
            start + width <= before.len(),
            destination.len() == before.len(),
            slot == padded(text@, width as nat),
            destination@ == overwrite(before, start as int, slot.take(i as int)),
        decreases width - i,
    {
        let c: u8 = if i < text.len() {
            text[i]
        } else {
            0
        };
        destination[start + i] = c;
        assert(destination@ =~= overwrite(before, start as int, slot.take(i + 1)));
        i += 1;
    }
    assert(slot.take(width as int) =~= slot);
}

/// Writes the encoding of `row` into `destination`, from `offset` on.
pub fn serialize_row(row: &Row, destination: &mut Vec<u8>, offset: usize)
    requires
        row@.fits(),
        offset + ROW_SIZE <= old(destination).len(),
    ensures
        final(destination)@ == overwrite(old(destination)@, offset as int, encode_row(row@)),
{
    let ghost before = destination@;
    let id: u32 = row.id;
    destination[offset] = (id / 0x100_0000) as u8;
    destination[offset + 1] = ((id / 0x1_0000) % 0x100) as u8;
    destination[offset + 2] = ((id / 0x100) % 0x100) as u8;
    destination[offset + 3] = (id % 0x100) as u8;
    assert(destination@ =~= overwrite(before, offset as int, id_bytes(id)));
    write_slot(&row.username, destination, offset + ROW_USERNAME_START, ROW_USERNAME_SIZE);
    write_slot(&row.email, destination, offset + ROW_EMAIL_START, ROW_EMAIL_SIZE);
    assert(destination@ =~= overwrite(before, offset as int, encode_row(row@)));
}

/// The text in the slot of `length` bytes that starts at `offset`.
pub fn deserialize_string(source: &Vec<u8>, offset: usize, length: usize) -> (text: &[u8])
    requires
        offset + length <= source.len(),
    ensures
        text@ == text_of(source@.subrange(offset as int, offset + length)),
{
    let ghost slot = source@.subrange(offset as int, offset + length);
    let mut n: usize = 0;
    while n < length && source[offset + n] != 0
        invariant
            n <= length,
            offset + length <= source.len(),
            slot == source@.subrange(offset as int, offset + length),
            forall|i: int| 0 <= i < n ==> slot[i] != 0,
        decreases length - n,
    {
        n += 1;
    }
    proof {
        lemma_text_len_is(slot, n as int);
    }
    let text = slice_subrange(source.as_slice(), offset, offset + n);
    assert(text@ =~= slot.take(n as int));
    text
}

/// The row encoded in the 291 bytes of `source` from `offset` on.
pub fn deserialize_row(source: &Vec<u8>, offset: usize) -> (row: Row)
    requires
        offset + ROW_SIZE <= source.len(),
    ensures
        row@ == decode_row(source@.subrange(offset as int, offset + ROW_SIZE)),
        row@.fits(),
        row@.zero_free(),
{
    let ghost bytes = source@.subrange(offset as int, offset + ROW_SIZE);
    let b0: u32 = source[offset] as u32;
    let b1: u32 = source[offset + 1] as u32;
    let b2: u32 = source[offset + 2] as u32;
    let b3: u32 = source[offset + 3] as u32;
    let id: u32 = b0 * 0x100_0000 + b1 * 0x1_0000 + b2 * 0x100 + b3;
    let username = deserialize_string(source, offset + ROW_USERNAME_START, ROW_USERNAME_SIZE);
    let email = deserialize_string(source, offset + ROW_EMAIL_START, ROW_EMAIL_SIZE);
    proof {
        assert(bytes.subrange(ROW_USERNAME_START as int, ROW_EMAIL_START as int)
            =~= source@.subrange(
            offset + ROW_USERNAME_START,
            offset + ROW_USERNAME_START + ROW_USERNAME_SIZE,
        ));
        assert(bytes.subrange(ROW_EMAIL_START as int, ROW_SIZE as int) =~= source@.subrange(
            offset + ROW_EMAIL_START,
            offset + ROW_EMAIL_START + ROW_EMAIL_SIZE,
        ));
        lemma_decode_fits(bytes);
    }
    Row { id, username: slice_to_vec(username), email: slice_to_vec(email) }
}

} // verus!
