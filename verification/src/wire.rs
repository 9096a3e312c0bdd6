//! The RESP wire format: the byte shapes of requests and replies, and the
//! encoders that produce them.
//!
//! Text is carried on the wire as its UTF-8 bytes. The byte shapes are given
//! as spec functions; each encoder returns exactly the shape named in its
//! contract.
use vstd::prelude::*;
use vstd::utf8::encode_utf8;

verus! {

/// Carriage return, the first byte of a line terminator.
pub const CR: u8 = 13;

/// Line feed, the second byte of a line terminator.
pub const LF: u8 = 10;

/// `+`, the marker of a simple string.
pub const PLUS: u8 = 43;

/// `-`, the sign of the null length.
pub const MINUS: u8 = 45;

/// `$`, the marker of a bulk string.
pub const DOLLAR: u8 = 36;

/// `*`, the marker of an array.
pub const STAR: u8 = 42;

/// `0`, the lowest decimal digit.
pub const DIGIT_ZERO: u8 = 48;

/// `9`, the highest decimal digit.
pub const DIGIT_NINE: u8 = 57;

/// The line terminator.
pub open spec fn crlf() -> Seq<u8> {
    seq![CR, LF]
}

/// The decimal digits of `n`, most significant first, without leading zeros.
pub open spec fn decimal(n: nat) -> Seq<u8>
    decreases n,
{
    if n < 10 {
        seq![(DIGIT_ZERO + n) as u8]
    } else {
        decimal(n / 10).push((DIGIT_ZERO + n % 10) as u8)
    }
}

/// A simple string: `+<text>\r\n`.
pub open spec fn simple_string(text: Seq<char>) -> Seq<u8> {
    seq![PLUS] + encode_utf8(text) + crlf()
}

/// The header of a bulk payload of `len` bytes: `$<len>\r\n`.
pub open spec fn bulk_header(len: nat) -> Seq<u8> {
    seq![DOLLAR] + decimal(len) + crlf()
}

/// A bulk string that holds arbitrary bytes: `$<len>\r\n<data>\r\n`.
pub open spec fn bulk_bytes(data: Seq<u8>) -> Seq<u8> {
    bulk_header(data.len()) + data + crlf()
}

/// A bulk string that holds text: `$<len>\r\n<text>\r\n`, the length counted
/// in bytes.
pub open spec fn bulk_string(text: Seq<char>) -> Seq<u8> {
    bulk_bytes(encode_utf8(text))
}

/// The null bulk string: `$-1\r\n`.
pub open spec fn null_bulk() -> Seq<u8> {
    seq![DOLLAR, MINUS, 49u8, CR, LF]
}

/// The header of an array of `count` elements: `*<count>\r\n`.
pub open spec fn array_header(count: nat) -> Seq<u8> {
    seq![STAR] + decimal(count) + crlf()
}

/// The bulk strings of `items`, one after the other.
pub open spec fn bulk_strings(items: Seq<Seq<char>>) -> Seq<u8>
    decreases items.len(),
{
    if items.len() == 0 {
        Seq::<u8>::empty()
    } else {
        bulk_string(items[0]) + bulk_strings(items.drop_first())
    }
}

/// A request: an array of bulk strings, the command name first.
pub open spec fn command_frame(name: Seq<char>, args: Seq<Seq<char>>) -> Seq<u8> {
    array_header(args.len() + 1) + bulk_string(name) + bulk_strings(args)
}

/// Whether `data` begins with `prefix`.
pub open spec fn begins_with(data: Seq<u8>, prefix: Seq<u8>) -> bool {
    prefix.len() <= data.len() && data.take(prefix.len() as int) == prefix
}

/// Appending one item appends its bulk string.
pub proof fn lemma_bulk_strings_push(items: Seq<Seq<char>>, item: Seq<char>)
    ensures
        bulk_strings(items.push(item)) == bulk_strings(items) + bulk_string(item),
    decreases items.len(),
{
    if items.len() == 0 {
        assert(items.push(item).drop_first() =~= items);
        assert(bulk_strings(items.push(item)) == bulk_string(item) + bulk_strings(items));
        assert(bulk_string(item) + bulk_strings(items) =~= bulk_strings(items) + bulk_string(item));
    } else {
        assert(items.push(item).drop_first() =~= items.drop_first().push(item));
        lemma_bulk_strings_push(items.drop_first(), item);
        assert(bulk_string(items[0]) + (bulk_strings(items.drop_first()) + bulk_string(item))
            =~= (bulk_string(items[0]) + bulk_strings(items.drop_first())) + bulk_string(item));
    }
}

/// Appends the decimal digits of `n` to `out`.
pub fn push_decimal(out: &mut Vec<u8>, n: u128)
    ensures
        final(out)@ == old(out)@ + decimal(n as nat),
    decreases n,
{
    if n < 10 {
        out.push(DIGIT_ZERO + n as u8);
        assert(out@ =~= old(out)@ + decimal(n as nat));
    } else {
        push_decimal(out, n / 10);
        out.push(DIGIT_ZERO + (n % 10) as u8);
        assert(out@ =~= old(out)@ + decimal(n as nat));
    }
}

/// Appends the bytes of `data` to `out`.
pub fn push_bytes(out: &mut Vec<u8>, data: &[u8])
    ensures
        final(out)@ == old(out)@ + data@,
{
    out.extend_from_slice(data);
    assert(out@ =~= old(out)@ + data@);
}

/// Appends a line terminator to `out`.
pub fn push_crlf(out: &mut Vec<u8>)
    ensures
        final(out)@ == old(out)@ + crlf(),
{
    out.push(CR);
    out.push(LF);
    assert(out@ =~= old(out)@ + crlf());
}

/// Appends the header `$<len>\r\n` to `out`.
pub fn push_bulk_header(out: &mut Vec<u8>, len: usize)
    ensures
        final(out)@ == old(out)@ + bulk_header(len as nat),
{
    out.push(DOLLAR);
    push_decimal(out, len as u128);
    push_crlf(out);
    assert(out@ =~= old(out)@ + bulk_header(len as nat));
}

/// Appends the bulk string of `data` to `out`.
pub fn push_bulk_bytes(out: &mut Vec<u8>, data: &[u8])
    ensures
        final(out)@ == old(out)@ + bulk_bytes(data@),
{
    push_bulk_header(out, data.len());
    push_bytes(out, data);
    push_crlf(out);
    assert(out@ =~= old(out)@ + bulk_bytes(data@));
}

/// Whether `data` begins with `prefix`.
pub fn starts_with(data: &[u8], prefix: &[u8]) -> (found: bool)
    ensures
        found == begins_with(data@, prefix@),
{
    if prefix.len() > data.len() {
        return false;
    }
    let mut i: usize = 0;
    while i < prefix.len()
        invariant
            i <= prefix.len() <= data.len(),
            forall|j: int| 0 <= j < i ==> data[j] == prefix[j],
        decreases prefix.len() - i,
    {
        if data[i] != prefix[i] {
            assert(data@.take(prefix.len() as int)[i as int] == data[i as int]);
            return false;
        }
        i += 1;
    }
    assert(data@.take(prefix.len() as int) =~= prefix@);
    true
}

/// Encodes `text` as a simple string.
pub fn encode_simple_string(text: &str) -> (out: Vec<u8>)
    ensures
        out@ == simple_string(text@),
{
    let mut out: Vec<u8> = Vec::new();
    out.push(PLUS);
    push_bytes(&mut out, text.as_bytes());
    push_crlf(&mut out);
    assert(out@ =~= simple_string(text@));
    out
}

/// Encodes `data` as a bulk string.
pub fn encode_bulk_bytes(data: &[u8]) -> (out: Vec<u8>)
    ensures
        out@ == bulk_bytes(data@),
{
    let mut out: Vec<u8> = Vec::new();
    push_bulk_bytes(&mut out, data);
    assert(out@ =~= bulk_bytes(data@));
    out
}

/// Encodes `text` as a bulk string.
pub fn encode_bulk_string(text: &str) -> (out: Vec<u8>)
    ensures
        out@ == bulk_string(text@),
{
    encode_bulk_bytes(text.as_bytes())
}

/// Encodes the null bulk string.
pub fn encode_null_bulk() -> (out: Vec<u8>)
    ensures
        out@ == null_bulk(),
{
    let mut out: Vec<u8> = Vec::new();
    out.push(DOLLAR);
    out.push(MINUS);
    out.push(49u8);
    out.push(CR);
    out.push(LF);
    assert(out@ =~= null_bulk());
    out
}

/// Passes a frame through unchanged, for propagation to replicas.
pub fn encode_raw(frame: &[u8]) -> (out: Vec<u8>)
    ensures
        out@ == frame@,
{
    let mut out: Vec<u8> = Vec::new();
    push_bytes(&mut out, frame);
    assert(out@ =~= frame@);
    out
}

/// Encodes a request: the command name and its arguments as an array of bulk
/// strings.
pub fn encode_command(name: &str, args: &Vec<String>) -> (out: Vec<u8>)
    ensures
        out@ == command_frame(name@, args.deep_view()),
{
    let mut out: Vec<u8> = Vec::new();
    out.push(STAR);
    push_decimal(&mut out, args.len() as u128 + 1);
    push_crlf(&mut out);
    push_bulk_bytes(&mut out, name.as_bytes());
    let ghost head = array_header((args.len() + 1) as nat) + bulk_string(name@);
    assert(out@ =~= head);
    let mut i: usize = 0;
    while i < args.len()
        invariant
            i <= args.len(),
            out@ == head + bulk_strings(args.deep_view().take(i as int)),
        decreases args.len() - i,
    {
        proof {
            let done = args.deep_view().take(i as int);
            lemma_bulk_strings_push(done, args[i as int]@);
            assert(done.push(args[i as int]@) =~= args.deep_view().take(i + 1));
        }
        push_bulk_bytes(&mut out, args[i].as_str().as_bytes());
        i += 1;
    }
    assert(args.deep_view().take(args.len() as int) =~= args.deep_view());
    out
}

} // verus!
