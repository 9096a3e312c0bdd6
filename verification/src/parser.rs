//! The request decoder: from the bytes read off a connection to command
//! frames.
//!
//! A request is an array of bulk strings. [`scan_command`] says, for any byte
//! sequence, whether its front holds one complete request, is the beginning
//! of one, or can never become one; [`decode`] computes exactly that.
use vstd::prelude::*;
use vstd::slice::{slice_subrange, slice_to_vec};
use vstd::utf8::{decode_utf8, valid_utf8};
use crate::numbers::{decimal_value, is_digit, lemma_decimal_value_grows};
use crate::wire::{CR, DIGIT_NINE, DIGIT_ZERO, DOLLAR, LF, STAR};

verus! {

/// The longest bulk string a request may carry, in bytes.
pub const MAX_BULK_LEN: usize = 536870912;

/// The largest number of elements a request may have.
pub const MAX_ARRAY_LEN: usize = 1048576;

/// An inbound request.
pub struct Command {
    /// The command name, as the client wrote it.
    pub cmd: String,
    /// The arguments, in order.
    pub args: Vec<String>,
    /// The bytes of the frame, exactly as they were received.
    pub raw_cmd: Vec<u8>,
}

/// The mathematical content of a [`Command`].
pub struct CommandView {
    pub name: Seq<char>,
    pub args: Seq<Seq<char>>,
    pub raw: Seq<u8>,
}

impl View for Command {
    type V = CommandView;

    open spec fn view(&self) -> CommandView {
        CommandView { name: self.cmd@, args: self.args.deep_view(), raw: self.raw_cmd@ }
    }
}

/// What a scan of the front of a byte sequence found.
pub enum Scan<T> {
    /// A complete item, and the number of bytes it occupies.
    Done { value: T, used: nat },
    /// The bytes are the beginning of an item; more are needed.
    Incomplete,
    /// No continuation of the bytes is an item.
    Malformed,
}

/// What [`decode`] found at the front of a read buffer.
pub enum Decoded {
    /// One complete request, and the number of bytes it occupies.
    Frame { command: Command, consumed: usize },
    /// The buffer ends inside a request: nothing is consumed.
    Incomplete,
    /// The buffer does not hold a request: the connection cannot go on.
    Malformed,
}

/// The number of decimal digits at the front of `s`.
pub open spec fn digit_run(s: Seq<u8>) -> nat
    decreases s.len(),
{
    if s.len() > 0 && is_digit(s[0]) {
        1 + digit_run(s.drop_first())
    } else {
        0
    }
}

/// Scans a length line without its marker: decimal digits without leading
/// zeros, at most `limit` in value, then a line terminator.
///
/// A byte that no such line has at its place makes the scan `Malformed` at
/// once; the scan is `Incomplete` exactly while the bytes are the beginning
/// of such a line.
pub open spec fn scan_number(s: Seq<u8>, limit: nat) -> Scan<nat> {
    let run = digit_run(s);
    let value = decimal_value(s.take(run as int));
    if run == 0 {
        if s.len() == 0 {
            Scan::Incomplete
        } else {
            Scan::Malformed
        }
    } else if run > 1 && s[0] == DIGIT_ZERO {
        Scan::Malformed
    } else if value > limit {
        Scan::Malformed
    } else if s.len() == run {
        Scan::Incomplete
    } else if s[run as int] != CR {
        Scan::Malformed
    } else if s.len() == run + 1 {
        Scan::Incomplete
    } else if s[run as int + 1] != LF {
        Scan::Malformed
    } else {
        Scan::Done { value, used: run + 2 }
    }
}

/// Scans one bulk string that holds text: `$<len>\r\n<len bytes>\r\n`, where
/// the bytes are valid UTF-8.
pub open spec fn scan_bulk(s: Seq<u8>) -> Scan<Seq<char>> {
    if s.len() == 0 {
        Scan::Incomplete
    } else if s[0] != DOLLAR {
        Scan::Malformed
    } else {
        match scan_number(s.skip(1), MAX_BULK_LEN as nat) {
            Scan::Done { value: len, used } => {
                let start = 1 + used;
                let end = start + len;
                if s.len() <= end {
                    Scan::Incomplete
                } else if s[end as int] != CR {
                    Scan::Malformed
                } else if s.len() == end + 1 {
                    Scan::Incomplete
                } else if s[end as int + 1] != LF {
                    Scan::Malformed
                } else if !valid_utf8(s.subrange(start as int, end as int)) {
                    Scan::Malformed
                } else {
                    Scan::Done {
                        value: decode_utf8(s.subrange(start as int, end as int)),
                        used: end + 2,
                    }
                }
            },
            Scan::Incomplete => Scan::Incomplete,
            Scan::Malformed => Scan::Malformed,
        }
    }
}

/// Puts `items` and `used` in front of what a later scan found.
pub open spec fn scan_after(
    items: Seq<Seq<char>>,
    used: nat,
    later: Scan<Seq<Seq<char>>>,
) -> Scan<Seq<Seq<char>>> {
    match later {
        Scan::Done { value, used: more } => Scan::Done { value: items + value, used: used + more },
        Scan::Incomplete => Scan::Incomplete,
        Scan::Malformed => Scan::Malformed,
    }
}

/// Scans `count` bulk strings, one after the other.
pub open spec fn scan_bulks(s: Seq<u8>, count: nat) -> Scan<Seq<Seq<char>>>
    decreases count,
{
    if count == 0 {
        Scan::Done { value: Seq::empty(), used: 0 }
    } else {
        match scan_bulk(s) {
            Scan::Done { value: first, used } => scan_after(
                seq![first],
                used,
                scan_bulks(s.skip(used as int), (count - 1) as nat),
            ),
            Scan::Incomplete => Scan::Incomplete,
            Scan::Malformed => Scan::Malformed,
        }
    }
}

/// Scans one request: `*<count>\r\n` with `count` at least 1, then `count`
/// bulk strings, the first of which is the command name.
///
/// A request holds text only: the null marker `-1` of replies has no place in
/// it, and is refused like any other length that is no plain number.
pub open spec fn scan_command(s: Seq<u8>) -> Scan<CommandView> {
    if s.len() == 0 {
        Scan::Incomplete
    } else if s[0] != STAR {
        Scan::Malformed
    } else {
        match scan_number(s.skip(1), MAX_ARRAY_LEN as nat) {
            Scan::Done { value: count, used } => {
                if count == 0 {
                    Scan::Malformed
                } else {
                    match scan_bulks(s.skip(1 + used as int), count) {
                        Scan::Done { value: parts, used: more } => Scan::Done {
                            value: CommandView {
                                name: parts[0],
                                args: parts.drop_first(),
                                raw: s.take(1 + used as int + more as int),
                            },
                            used: 1 + used + more,
                        },
                        Scan::Incomplete => Scan::Incomplete,
                        Scan::Malformed => Scan::Malformed,
                    }
                }
            },
            Scan::Incomplete => Scan::Incomplete,
            Scan::Malformed => Scan::Malformed,
        }
    }
}

/// Whether `decoded` is what `scan` says.
pub open spec fn decoded_as(decoded: Decoded, scan: Scan<CommandView>) -> bool {
    match decoded {
        Decoded::Frame { command, consumed } => scan == (Scan::Done {
            value: command@,
            used: consumed as nat,
        }),
        Decoded::Incomplete => scan is Incomplete,
        Decoded::Malformed => scan is Malformed,
    }
}

/// The digits at the front of `s` are digits, and the byte after them, if
/// there is one, is none.
pub proof fn lemma_digit_run_bounds(s: Seq<u8>)
    ensures
        digit_run(s) <= s.len(),
        forall|j: int| 0 <= j < digit_run(s) ==> is_digit(#[trigger] s[j]),
        digit_run(s) < s.len() ==> !is_digit(s[digit_run(s) as int]),
    decreases s.len(),
{
    if s.len() > 0 && is_digit(s[0]) {
        let rest = s.drop_first();
        lemma_digit_run_bounds(rest);
        assert forall|j: int| 0 <= j < digit_run(s) implies is_digit(#[trigger] s[j]) by {
            if j > 0 {
                assert(s[j] == rest[j - 1]);
            }
        }
        if digit_run(s) < s.len() {
            assert(s[digit_run(s) as int] == rest[digit_run(rest) as int]);
        }
    }
}

/// A run of `k` digits that ends at the end of `s` or before a byte that is
/// no digit is the digit run of `s`.
pub proof fn lemma_digit_run_is(s: Seq<u8>, k: nat)
    requires
        k <= s.len(),
        forall|j: int| 0 <= j < k ==> is_digit(#[trigger] s[j]),
        k < s.len() ==> !is_digit(s[k as int]),
    ensures
        digit_run(s) == k,
    decreases k,
{
    if k > 0 {
        let rest = s.drop_first();
        assert forall|j: int| 0 <= j < k - 1 implies is_digit(#[trigger] rest[j]) by {
            assert(rest[j] == s[j + 1]);
        }
        if k < s.len() {
            assert(rest[k - 1] == s[k as int]);
        }
        lemma_digit_run_is(rest, (k - 1) as nat);
    }
}

/// What reading one item at a position of a buffer found: the item and the
/// position after it, or why there is none.
pub(crate) enum Step<T> {
    Done(T, usize),
    Incomplete,
    Malformed,
}

/// Converts bytes to text with `String::from_utf8`: the text that the bytes
/// encode when they are valid UTF-8, and nothing when they are not.
#[verifier::external_body]
fn text_from_utf8(bytes: Vec<u8>) -> (text: Option<String>)
    ensures
        match text {
            Some(t) => valid_utf8(bytes@) && t@ == decode_utf8(bytes@),
            None => !valid_utf8(bytes@),
        },
{
    match String::from_utf8(bytes) {
        Ok(text) => Some(text),
        Err(_) => None,
    }
}

/// Reads the length line that begins at `at`, without its marker.
pub(crate) fn read_number(buf: &[u8], at: usize, limit: usize) -> (step: Step<usize>)
    requires
        at <= buf.len(),
        limit <= MAX_BULK_LEN,
    ensures
        match step {
            Step::Done(value, next) => {
                &&& at < next <= buf.len()
                &&& scan_number(buf@.skip(at as int), limit as nat) == Scan::Done {
                    value: value as nat,
                    used: (next - at) as nat,
                }
            },
            Step::Incomplete => scan_number(buf@.skip(at as int), limit as nat) is Incomplete,
            Step::Malformed => scan_number(buf@.skip(at as int), limit as nat) is Malformed,
        },
{
    let ghost s = buf@.skip(at as int);
    let len = buf.len();
    let mut i: usize = at;
    let mut value: u64 = 0;
    proof {
        lemma_digit_run_bounds(s);
        assert(s.take(0) =~= Seq::<u8>::empty());
    }
    while i < len && DIGIT_ZERO <= buf[i] && buf[i] <= DIGIT_NINE
        invariant
            at <= i <= len,
            len == buf.len(),
            s == buf@.skip(at as int),
            limit <= MAX_BULK_LEN,
            forall|j: int| 0 <= j < i - at ==> is_digit(#[trigger] s[j]),
            value == decimal_value(s.take(i - at)),
            value <= limit,
            i - at > 1 ==> s[0] != DIGIT_ZERO,
            digit_run(s) <= s.len(),
            forall|j: int| 0 <= j < digit_run(s) ==> is_digit(#[trigger] s[j]),
            digit_run(s) < s.len() ==> !is_digit(s[digit_run(s) as int]),
        decreases len - i,
    {
        assert(s[i - at] == buf[i as int]);
        proof {
            if digit_run(s) < i - at + 1 {
                assert(is_digit(s[digit_run(s) as int]));
            }
            let run = digit_run(s);
            assert(s.take(i - at + 1).drop_last() =~= s.take(i - at));
            assert(s.take(run as int).take(i - at + 1) =~= s.take(i - at + 1));
            assert forall|j: int| 0 <= j < s.take(run as int).len() implies is_digit(
                #[trigger] s.take(run as int)[j],
            ) by {
                assert(s.take(run as int)[j] == s[j]);
            }
            lemma_decimal_value_grows(s.take(run as int), (i - at + 1) as nat, run);
            assert(s.take(run as int).take(run as int) =~= s.take(run as int));
        }
        if i > at && buf[at] == DIGIT_ZERO {
            assert(s[0] == buf[at as int]);
            return Step::Malformed;
        }
        value = value * 10 + (buf[i] - DIGIT_ZERO) as u64;
        if value > limit as u64 {
            return Step::Malformed;
        }
        i += 1;
    }
    proof {
        if i < len {
            assert(s[i - at] == buf[i as int]);
        }
        lemma_digit_run_is(s, (i - at) as nat);
    }
    if i == at {
        if i == len {
            Step::Incomplete
        } else {
            Step::Malformed
        }
    } else if i == len {
        Step::Incomplete
    } else if buf[i] != CR {
        Step::Malformed
    } else if i + 1 == len {
        Step::Incomplete
    } else if buf[i + 1] != LF {
        assert(s[i - at + 1] == buf[i + 1]);
        Step::Malformed
    } else {
        assert(s[i - at + 1] == buf[i + 1]);
        Step::Done(value as usize, i + 2)
    }
}

/// Reads the bulk string that begins at `at`.
fn read_bulk(buf: &[u8], at: usize) -> (step: Step<String>)
    requires
        at <= buf.len(),
    ensures
        match step {
            Step::Done(text, next) => {
                &&& at < next <= buf.len()
                &&& scan_bulk(buf@.skip(at as int)) == Scan::Done {
                    value: text@,
                    used: (next - at) as nat,
                }
            },
            Step::Incomplete => scan_bulk(buf@.skip(at as int)) is Incomplete,
            Step::Malformed => scan_bulk(buf@.skip(at as int)) is Malformed,
        },
{
    let ghost s = buf@.skip(at as int);
    let len = buf.len();
    if at == len {
        return Step::Incomplete;
    }
    assert(s[0] == buf[at as int]);
    if buf[at] != DOLLAR {
        return Step::Malformed;
    }
    assert(s.skip(1) =~= buf@.skip(at + 1));
    match read_number(buf, at + 1, MAX_BULK_LEN) {
        Step::Done(size, start) => {
            if len - start <= size {
                return Step::Incomplete;
            }
            let end = start + size;
            assert(s[end - at] == buf[end as int]);
            if buf[end] != CR {
                return Step::Malformed;
            }
            if end + 1 == len {
                return Step::Incomplete;
            }
            assert(s[end - at + 1] == buf[end + 1]);
            if buf[end + 1] != LF {
                return Step::Malformed;
            }
            assert(s.subrange(start - at, end - at) =~= buf@.subrange(start as int, end as int));
            let data = slice_to_vec(slice_subrange(buf, start, end));
            match text_from_utf8(data) {
                Some(text) => Step::Done(text, end + 2),
                None => Step::Malformed,
            }
        },
        Step::Incomplete => Step::Incomplete,
        Step::Malformed => Step::Malformed,
    }
}

/// Decodes the request at the front of `buf`.
///
/// Returns the request and the number of bytes it occupies when the buffer
/// holds a complete one; `Incomplete`, when the buffer is the beginning of a
/// request; `Malformed`, when it cannot become one.
pub fn decode(buf: &[u8]) -> (decoded: Decoded)
    ensures
        decoded_as(decoded, scan_command(buf@)),
        decoded matches Decoded::Frame { consumed, .. } ==> 0 < consumed <= buf.len(),
{
    let len = buf.len();
    if len == 0 {
        return Decoded::Incomplete;
    }
    if buf[0] != STAR {
        return Decoded::Malformed;
    }
    let (count, first) = match read_number(buf, 1, MAX_ARRAY_LEN) {
        Step::Done(count, first) => (count, first),
        Step::Incomplete => {
            return Decoded::Incomplete;
        },
        Step::Malformed => {
            return Decoded::Malformed;
        },
    };
    if count == 0 {
        return Decoded::Malformed;
    }
    let mut parts: Vec<String> = Vec::new();
    let mut at: usize = first;
    let mut k: usize = 0;
    let ghost whole = scan_bulks(buf@.skip(first as int), count as nat);
    assert(parts.deep_view() =~= Seq::<Seq<char>>::empty());
    assert(scan_after(parts.deep_view(), 0, whole) == whole) by {
        match whole {
            Scan::Done { value, used } => {
                assert(Seq::<Seq<char>>::empty() + value =~= value);
            },
            _ => {},
        }
    }
    while k < count
        invariant
            k <= count,
            0 < count,
            0 < first <= at <= buf.len(),
            parts.len() == k,
            buf@[0] == STAR,
            scan_number(buf@.skip(1), MAX_ARRAY_LEN as nat) == (Scan::Done {
                value: count as nat,
                used: (first - 1) as nat,
            }),
            whole == scan_bulks(buf@.skip(first as int), count as nat),
            whole == scan_after(
                parts.deep_view(),
                (at - first) as nat,
                scan_bulks(buf@.skip(at as int), (count - k) as nat),
            ),
        decreases count - k,
    {
        match read_bulk(buf, at) {
            Step::Done(text, next) => {
                proof {
                    let items = parts.deep_view();
                    let rest = scan_bulks(buf@.skip(next as int), (count - k - 1) as nat);
                    assert(buf@.skip(at as int).skip(next - at) =~= buf@.skip(next as int));
                    assert(items.push(text@) =~= items + seq![text@]);
                    match rest {
                        Scan::Done { value, used } => {
                            assert(items + (seq![text@] + value) =~= items.push(text@) + value);
                        },
                        _ => {},
                    }
                }
                let ghost before = parts.deep_view();
                parts.push(text);
                assert(parts.deep_view() =~= before.push(text@));
                at = next;
                k += 1;
            },
            Step::Incomplete => {
                return Decoded::Incomplete;
            },
            Step::Malformed => {
                return Decoded::Malformed;
            },
        }
    }
    assert(buf@.skip(1).len() == len - 1);
    let ghost all = parts.deep_view();
    assert(all + Seq::<Seq<char>>::empty() =~= all);
    let raw_cmd = slice_to_vec(slice_subrange(buf, 0, at));
    assert(buf@.subrange(0, at as int) =~= buf@.take(at as int));
    let mut args = parts.split_off(1);
    let cmd = parts.pop().unwrap();
    assert(args.deep_view() =~= all.drop_first());
    Decoded::Frame { command: Command { cmd, args, raw_cmd }, consumed: at }
}

/// Decodes the request at the front of `buf`, or says why there is none.
pub fn parse_request(buf: &[u8]) -> (result: Result<Command, String>)
    ensures
        match result {
            Ok(command) => scan_command(buf@) matches Scan::Done { value, .. } && value
                == command@,
            Err(reason) => {
                ||| scan_command(buf@) is Incomplete && reason@ == "incomplete frame"@
                ||| scan_command(buf@) is Malformed && reason@ == "malformed frame"@
            },
        },
{
    match decode(buf) {
        Decoded::Frame { command, consumed } => Ok(command),
        Decoded::Incomplete => Err("incomplete frame".to_string()),
        Decoded::Malformed => Err("malformed frame".to_string()),
    }
}

} // verus!
