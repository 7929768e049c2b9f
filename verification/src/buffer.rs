//! The output buffer: a `ByteBuffer` that is written at its end and patched
//! in place.

use bytebuffer::ByteBuffer;
use mvutils::bytebuffer::ByteBufferExtras;
use mvutils::save::Saver;
use vstd::prelude::*;

verus! {

/// The `width` low bytes of `value`, lowest first.
pub open spec fn le_bytes(value: nat, width: nat) -> Seq<u8>
    decreases width,
{
    if width == 0 {
        Seq::empty()
    } else {
        seq![(value % 256) as u8] + le_bytes(value / 256, (width - 1) as nat)
    }
}

/// The unsigned number with the bit pattern of a signed 64-bit number.
pub open spec fn twos_complement(value: i64) -> nat {
    if value < 0 {
        (value + 0x1_0000_0000_0000_0000) as nat
    } else {
        value as nat
    }
}

/// `bytes` with `data` written over it from position `at` on; what does not
/// fit lengthens it.
pub open spec fn overwrite(bytes: Seq<u8>, at: int, data: Seq<u8>) -> Seq<u8> {
    bytes.take(at) + data + (if at + data.len() < bytes.len() {
        bytes.skip(at + data.len())
    } else {
        Seq::empty()
    })
}

/// A string as the buffer stores it: the length of its UTF-8 form in four
/// bytes, then that form.
pub open spec fn string_bytes(s: Seq<char>) -> Seq<u8> {
    le_bytes(vstd::utf8::encode_utf8(s).len(), 4) + vstd::utf8::encode_utf8(s)
}

/// `ByteBuffer` of bytebuffer. Nothing of its inside is known here: what it
/// holds is told by the three names below.
#[verifier::external_type_specification]
#[verifier::external_body]
pub struct ExByteBuffer(bytebuffer::ByteBuffer);

/// The bytes that a buffer holds, first to last.
pub uninterp spec fn buffer_bytes(buffer: ByteBuffer) -> Seq<u8>;

/// The position at which a buffer writes next.
pub uninterp spec fn buffer_cursor(buffer: ByteBuffer) -> nat;

/// Whether a buffer writes numbers lowest byte first and is between whole
/// bytes, as one is that was made little-endian and never written bit by bit.
pub uninterp spec fn buffer_plain(buffer: ByteBuffer) -> bool;

/// `ByteBufferExtras::new_le` of mvutils: an empty buffer that writes
/// little-endian, its cursor at 0.
#[verifier::external_body]
fn new_buffer() -> (buffer: ByteBuffer)
    ensures
        buffer_bytes(buffer).len() == 0,
        buffer_cursor(buffer) == 0,
        buffer_plain(buffer),
{
    ByteBuffer::new_le()
}

/// `Saver::push_u8` of mvutils: writes one byte at the cursor and moves the
/// cursor behind it.
#[verifier::external_body]
fn push_u8(buffer: &mut ByteBuffer, value: u8)
    requires
        buffer_plain(*old(buffer)),
        buffer_cursor(*old(buffer)) <= buffer_bytes(*old(buffer)).len(),
    ensures
        buffer_plain(*final(buffer)),
        buffer_bytes(*final(buffer)) == overwrite(
            buffer_bytes(*old(buffer)),
            buffer_cursor(*old(buffer)) as int,
            seq![value],
        ),
        buffer_cursor(*final(buffer)) == buffer_cursor(*old(buffer)) + 1,
{
    buffer.push_u8(value)
}

/// `Saver::push_u16` of mvutils: writes two bytes at the cursor, lowest
/// first on a little-endian buffer, and moves the cursor behind them.
#[verifier::external_body]
fn push_u16(buffer: &mut ByteBuffer, value: u16)
    requires
        buffer_plain(*old(buffer)),
        buffer_cursor(*old(buffer)) <= buffer_bytes(*old(buffer)).len(),
    ensures
        buffer_plain(*final(buffer)),
        buffer_bytes(*final(buffer)) == overwrite(
            buffer_bytes(*old(buffer)),
            buffer_cursor(*old(buffer)) as int,
            le_bytes(value as nat, 2),
        ),
        buffer_cursor(*final(buffer)) == buffer_cursor(*old(buffer)) + 2,
{
    buffer.push_u16(value)
}

/// `Saver::push_u32` of mvutils: writes four bytes at the cursor, lowest
/// first on a little-endian buffer, and moves the cursor behind them.
#[verifier::external_body]
fn push_u32(buffer: &mut ByteBuffer, value: u32)
    requires
        buffer_plain(*old(buffer)),
        buffer_cursor(*old(buffer)) <= buffer_bytes(*old(buffer)).len(),
    ensures
        buffer_plain(*final(buffer)),
        buffer_bytes(*final(buffer)) == overwrite(
            buffer_bytes(*old(buffer)),
            buffer_cursor(*old(buffer)) as int,
            le_bytes(value as nat, 4),
        ),
        buffer_cursor(*final(buffer)) == buffer_cursor(*old(buffer)) + 4,
{
    buffer.push_u32(value)
}

/// `Saver::push_u64` of mvutils: writes eight bytes at the cursor, lowest
/// first on a little-endian buffer, and moves the cursor behind them.
#[verifier::external_body]
fn push_u64(buffer: &mut ByteBuffer, value: u64)
    requires
        buffer_plain(*old(buffer)),
        buffer_cursor(*old(buffer)) <= buffer_bytes(*old(buffer)).len(),
    ensures
        buffer_plain(*final(buffer)),
        buffer_bytes(*final(buffer)) == overwrite(
            buffer_bytes(*old(buffer)),
            buffer_cursor(*old(buffer)) as int,
            le_bytes(value as nat, 8),
        ),
        buffer_cursor(*final(buffer)) == buffer_cursor(*old(buffer)) + 8,
{
    buffer.push_u64(value)
}

/// `Saver::push_i64` of mvutils: writes the eight bytes of the number's
/// two's complement at the cursor, lowest first on a little-endian buffer,
/// and moves the cursor behind them.
#[verifier::external_body]
fn push_i64(buffer: &mut ByteBuffer, value: i64)
    requires
        buffer_plain(*old(buffer)),
        buffer_cursor(*old(buffer)) <= buffer_bytes(*old(buffer)).len(),
    ensures
        buffer_plain(*final(buffer)),
        buffer_bytes(*final(buffer)) == overwrite(
            buffer_bytes(*old(buffer)),
            buffer_cursor(*old(buffer)) as int,
            le_bytes(twos_complement(value), 8),
        ),
        buffer_cursor(*final(buffer)) == buffer_cursor(*old(buffer)) + 8,
{
    buffer.push_i64(value)
}

/// `Saver::push_string` of mvutils: writes the length of the string's UTF-8
/// form as four bytes, then that form, at the cursor, and moves the cursor
/// behind them. A length that does not fit four bytes is left out.
#[verifier::external_body]
fn push_string(buffer: &mut ByteBuffer, value: &str)
    requires
        buffer_plain(*old(buffer)),
        buffer_cursor(*old(buffer)) <= buffer_bytes(*old(buffer)).len(),
        vstd::utf8::encode_utf8(value@).len() <= u32::MAX,
    ensures
        buffer_plain(*final(buffer)),
        buffer_bytes(*final(buffer)) == overwrite(
            buffer_bytes(*old(buffer)),
            buffer_cursor(*old(buffer)) as int,
            string_bytes(value@),
        ),
        buffer_cursor(*final(buffer)) == buffer_cursor(*old(buffer)) + string_bytes(value@).len(),
{
    buffer.push_string(value)
}

/// `ByteBuffer::set_wpos` of bytebuffer: moves the cursor to the given
/// position, or to the end where that lies before it.
#[verifier::external_body]
fn set_cursor(buffer: &mut ByteBuffer, at: usize)
    ensures
        buffer_plain(*final(buffer)) == buffer_plain(*old(buffer)),
        buffer_bytes(*final(buffer)) == buffer_bytes(*old(buffer)),
        buffer_cursor(*final(buffer)) == (if at <= buffer_bytes(*old(buffer)).len() {
            at as nat
        } else {
            buffer_bytes(*old(buffer)).len()
        }),
{
    buffer.set_wpos(at)
}

/// `ByteBuffer::len` of bytebuffer: the number of bytes held.
#[verifier::external_body]
fn buffer_len(buffer: &ByteBuffer) -> (len: usize)
    ensures
        len == buffer_bytes(*buffer).len(),
{
    buffer.len()
}

/// `ByteBuffer::into_vec` of bytebuffer: the bytes held.
#[verifier::external_body]
fn into_bytes(buffer: ByteBuffer) -> (bytes: Vec<u8>)
    ensures
        bytes@ == buffer_bytes(buffer),
{
    buffer.into_vec()
}

/// The bytes of a module while it is assembled.
pub struct Output {
    buffer: ByteBuffer,
}

impl View for Output {
    type V = Seq<u8>;

    closed spec fn view(&self) -> Seq<u8> {
        buffer_bytes(self.buffer)
    }
}

impl Output {
    /// Whether the buffer stands ready to be written at its end.
    pub closed spec fn wf(&self) -> bool {
        &&& buffer_plain(self.buffer)
        &&& buffer_cursor(self.buffer) == buffer_bytes(self.buffer).len()
    }

    pub fn new() -> (out: Output)
        ensures
            out.wf(),
            out@ == Seq::<u8>::empty(),
    {
        let out = Output { buffer: new_buffer() };
        assert(out@ =~= Seq::<u8>::empty());
        out
    }

    pub fn len(&self) -> (len: usize)
        ensures
            len == self@.len(),
    {
        buffer_len(&self.buffer)
    }

    pub fn put_u8(&mut self, value: u8)
        requires
            old(self).wf(),
        ensures
            final(self).wf(),
            final(self)@ == old(self)@.push(value),
    {
        push_u8(&mut self.buffer, value);
        assert(self@ =~= old(self)@.push(value));
    }

    pub fn put_u16(&mut self, value: u16)
        requires
            old(self).wf(),
        ensures
            final(self).wf(),
            final(self)@ == old(self)@ + le_bytes(value as nat, 2),
    {
        push_u16(&mut self.buffer, value);
        proof {
            lemma_le_bytes_len(value as nat, 2);
        }
        assert(self@ =~= old(self)@ + le_bytes(value as nat, 2));
    }

    pub fn put_u32(&mut self, value: u32)
        requires
            old(self).wf(),
        ensures
            final(self).wf(),
            final(self)@ == old(self)@ + le_bytes(value as nat, 4),
    {
        push_u32(&mut self.buffer, value);
        proof {
            lemma_le_bytes_len(value as nat, 4);
        }
        assert(self@ =~= old(self)@ + le_bytes(value as nat, 4));
    }

    pub fn put_u64(&mut self, value: u64)
        requires
            old(self).wf(),
        ensures
            final(self).wf(),
            final(self)@ == old(self)@ + le_bytes(value as nat, 8),
    {
        push_u64(&mut self.buffer, value);
        proof {
            lemma_le_bytes_len(value as nat, 8);
        }
        assert(self@ =~= old(self)@ + le_bytes(value as nat, 8));
    }

    pub fn put_i64(&mut self, value: i64)
        requires
            old(self).wf(),
        ensures
            final(self).wf(),
            final(self)@ == old(self)@ + le_bytes(twos_complement(value), 8),
    {
        push_i64(&mut self.buffer, value);
        proof {
            lemma_le_bytes_len(twos_complement(value), 8);
        }
        assert(self@ =~= old(self)@ + le_bytes(twos_complement(value), 8));
    }

    /// Appends a string, its length first.
    pub fn put_string(&mut self, value: &str)
        requires
            old(self).wf(),
            vstd::utf8::encode_utf8(value@).len() <= u32::MAX,
        ensures
            final(self).wf(),
            final(self)@ == old(self)@ + string_bytes(value@),
    {
        push_string(&mut self.buffer, value);
        assert(self@ =~= old(self)@ + string_bytes(value@));
    }

    /// Writes a number over the four bytes at `at`.
    pub fn patch_u32(&mut self, at: usize, value: u32)
        requires
            old(self).wf(),
            at + 4 <= old(self)@.len(),
        ensures
            final(self).wf(),
            final(self)@ == overwrite(old(self)@, at as int, le_bytes(value as nat, 4)),
            final(self)@.len() == old(self)@.len(),
    {
        let end = buffer_len(&self.buffer);
        set_cursor(&mut self.buffer, at);
        push_u32(&mut self.buffer, value);
        set_cursor(&mut self.buffer, end);
        proof {
            lemma_le_bytes_len(value as nat, 4);
        }
    }

    pub fn into_vec(self) -> (bytes: Vec<u8>)
        ensures
            bytes@ == self@,
    {
        into_bytes(self.buffer)
    }
}

pub proof fn lemma_le_bytes_len(value: nat, width: nat)
    ensures
        le_bytes(value, width).len() == width,
    decreases width,
{
    if width > 0 {
        lemma_le_bytes_len(value / 256, (width - 1) as nat);
    }
}

} // verus!
