//! The decoder and the encoder are inverse to each other, and the decoder's
//! verdicts are final.
//!
//! What [`crate::wire`] writes for a request, [`crate::parser`] reads back as
//! the same request; what the parser accepts is what the encoder writes; and
//! neither a request that was found nor a refusal changes when more bytes
//! arrive.
use vstd::prelude::*;
use vstd::utf8::{
    decode_utf8_encode_utf8, encode_utf8, encode_utf8_decode_utf8, encode_utf8_valid_utf8,
};
use crate::numbers::{all_digits, decimal_value, is_digit, lemma_decimal_value_grows};
use crate::parser::{
    digit_run, lemma_digit_run_bounds, lemma_digit_run_is, scan_bulk, scan_bulks, scan_command,
    scan_number, CommandView, Scan, MAX_ARRAY_LEN, MAX_BULK_LEN,
};
use crate::wire::{
    array_header, bulk_string, bulk_strings, command_frame, crlf, decimal,
    CR, DIGIT_ZERO, DOLLAR, LF, STAR,
};

verus! {

/// Whether a request can be put on the wire and read back: it has no more
/// elements, and no element more bytes, than the decoder admits.
pub open spec fn encodable(name: Seq<char>, args: Seq<Seq<char>>) -> bool {
    &&& args.len() + 1 <= MAX_ARRAY_LEN
    &&& encode_utf8(name).len() <= MAX_BULK_LEN
    &&& forall|i: int| 0 <= i < args.len() ==> encode_utf8(#[trigger] args[i]).len() <= MAX_BULK_LEN
}

/// The decimal form of `n` consists of digits, starts with `0` only for 0
/// itself, and denotes `n`.
pub proof fn lemma_decimal_denotes(n: nat)
    ensures
        decimal(n).len() >= 1,
        all_digits(decimal(n)),
        decimal_value(decimal(n)) == n,
        n > 0 ==> decimal(n)[0] != DIGIT_ZERO,
        decimal(n).len() > 1 ==> n >= 10,
    decreases n,
{
    if n < 10 {
        let d = decimal(n);
        assert(d.drop_last() =~= Seq::<u8>::empty());
        assert(decimal_value(d.drop_last()) == 0);
    } else {
        lemma_decimal_denotes(n / 10);
        let shorter = decimal(n / 10);
        let d = decimal(n);
        assert(d.drop_last() =~= shorter);
        assert(d[0] == shorter[0]);
        assert forall|j: int| 0 <= j < d.len() implies is_digit(#[trigger] d[j]) by {
            if j < shorter.len() {
                assert(d[j] == shorter[j]);
            }
        }
    }
}

/// A length line that holds the decimal form of `n` scans as `n`.
pub proof fn lemma_scan_number_of_decimal(n: nat, limit: nat, rest: Seq<u8>)
    requires
        n <= limit,
    ensures
        scan_number(decimal(n) + crlf() + rest, limit) == (Scan::Done {
            value: n,
            used: decimal(n).len() + 2,
        }),
{
    let digits = decimal(n);
    let s = digits + crlf() + rest;
    lemma_decimal_denotes(n);
    assert forall|j: int| 0 <= j < digits.len() implies is_digit(#[trigger] s[j]) by {
        assert(s[j] == digits[j]);
    }
    assert(s[digits.len() as int] == CR);
    assert(s[digits.len() as int + 1] == LF);
    lemma_digit_run_is(s, digits.len());
    assert(s.take(digits.len() as int) =~= digits);
}

/// The bulk string of a text scans as that text, whatever follows it.
pub proof fn lemma_scan_bulk_of_string(text: Seq<char>, rest: Seq<u8>)
    requires
        encode_utf8(text).len() <= MAX_BULK_LEN,
    ensures
        scan_bulk(bulk_string(text) + rest) == (Scan::Done {
            value: text,
            used: bulk_string(text).len(),
        }),
{
    let data = encode_utf8(text);
    let digits = decimal(data.len());
    let s = bulk_string(text) + rest;
    let tail = data + crlf() + rest;
    assert(s[0] == DOLLAR);
    assert(s.skip(1) =~= digits + crlf() + tail);
    lemma_scan_number_of_decimal(data.len(), MAX_BULK_LEN as nat, tail);
    let start = 1 + digits.len() + 2;
    let end = start + data.len();
    assert(s[end as int] == CR);
    assert(s[end as int + 1] == LF);
    assert(s.subrange(start as int, end as int) =~= data);
    encode_utf8_valid_utf8(text);
    encode_utf8_decode_utf8(text);
}

/// The bulk strings of a list of texts scan as that list.
pub proof fn lemma_scan_bulks_of_strings(items: Seq<Seq<char>>, rest: Seq<u8>)
    requires
        forall|i: int| 0 <= i < items.len() ==> encode_utf8(#[trigger] items[i]).len() <= MAX_BULK_LEN,
    ensures
        scan_bulks(bulk_strings(items) + rest, items.len()) == (Scan::Done {
            value: items,
            used: bulk_strings(items).len(),
        }),
    decreases items.len(),
{
    if items.len() == 0 {
        assert(items =~= Seq::<Seq<char>>::empty());
    } else {
        let first = bulk_string(items[0]);
        let others = items.drop_first();
        let s = bulk_strings(items) + rest;
        assert(s =~= first + (bulk_strings(others) + rest));
        lemma_scan_bulk_of_string(items[0], bulk_strings(others) + rest);
        assert(s.skip(first.len() as int) =~= bulk_strings(others) + rest);
        assert forall|i: int| 0 <= i < others.len() implies encode_utf8(
            #[trigger] others[i],
        ).len() <= MAX_BULK_LEN by {
            assert(others[i] == items[i + 1]);
        }
        lemma_scan_bulks_of_strings(others, rest);
        assert(seq![items[0]] + others =~= items);
    }
}

/// Decoding what was encoded gives the request back.
///
/// For every request that can be encoded, the bytes of its frame, followed
/// by any other bytes, decode to the same name and arguments; the frame is
/// kept as the raw bytes, and exactly its bytes are consumed.
pub proof fn theorem_decode_inverts_encode(name: Seq<char>, args: Seq<Seq<char>>, rest: Seq<u8>)
    requires
        encodable(name, args),
    ensures
        scan_command(command_frame(name, args) + rest) == (Scan::Done {
            value: CommandView { name, args, raw: command_frame(name, args) },
            used: command_frame(name, args).len(),
        }),
{
    let frame = command_frame(name, args);
    let s = frame + rest;
    let count = args.len() + 1;
    let header = array_header(count);
    let parts = seq![name] + args;
    let body = bulk_strings(parts);
    assert(body == bulk_string(name) + bulk_strings(args)) by {
        assert(parts.drop_first() =~= args);
    }
    assert(s =~= header + (body + rest));
    assert(s.skip(1) =~= decimal(count) + crlf() + (body + rest));
    assert(s.skip(header.len() as int) =~= body + rest);
    assert(s.take((header.len() + body.len()) as int) =~= frame);
    lemma_scan_number_of_decimal(count, MAX_ARRAY_LEN as nat, body + rest);
    assert forall|i: int| 0 <= i < parts.len() implies encode_utf8(#[trigger] parts[i]).len()
        <= MAX_BULK_LEN by {
        if i > 0 {
            assert(parts[i] == args[i - 1]);
        }
    }
    lemma_scan_bulks_of_strings(parts, rest);
    assert(parts[0] == name && parts.drop_first() =~= args);
}

/// A digit string that starts with a digit other than `0` denotes at least 1.
proof fn lemma_leading_digit_counts(digits: Seq<u8>)
    requires
        digits.len() >= 1,
        all_digits(digits),
        digits[0] != DIGIT_ZERO,
    ensures
        decimal_value(digits) >= 1,
{
    lemma_decimal_value_grows(digits, 1, digits.len());
    assert(digits.take(digits.len() as int) =~= digits);
    let first = digits.take(1);
    assert(first.drop_last() =~= Seq::<u8>::empty());
    assert(decimal_value(first.drop_last()) == 0);
    assert(first.last() == digits[0]);
    assert(is_digit(digits[0]));
}

/// A digit string without leading zeros is the decimal form of the number
/// it denotes.
pub proof fn lemma_decimal_of_value(digits: Seq<u8>)
    requires
        digits.len() >= 1,
        all_digits(digits),
        digits.len() > 1 ==> digits[0] != DIGIT_ZERO,
    ensures
        decimal(decimal_value(digits)) == digits,
    decreases digits.len(),
{
    let front = digits.drop_last();
    let last = digits.last();
    assert(is_digit(last));
    if front.len() == 0 {
        assert(decimal_value(front) == 0);
        assert(decimal(decimal_value(digits)) =~= digits);
    } else {
        assert forall|j: int| 0 <= j < front.len() implies is_digit(#[trigger] front[j]) by {
            assert(front[j] == digits[j]);
        }
        assert(front[0] == digits[0]);
        lemma_decimal_of_value(front);
        lemma_leading_digit_counts(front);
        let value = decimal_value(digits);
        assert(value == decimal_value(front) * 10 + (last - DIGIT_ZERO));
        assert(value / 10 == decimal_value(front));
        assert(value % 10 == last - DIGIT_ZERO);
        assert(decimal(value) =~= front.push(last));
        assert(front.push(last) =~= digits);
    }
}

/// A length line that scans is the decimal form of its number and a line
/// terminator.
pub proof fn lemma_scanned_number_is_decimal(s: Seq<u8>, limit: nat)
    requires
        scan_number(s, limit) is Done,
    ensures
        ({
            let n = scan_number(s, limit)->value;
            let used = scan_number(s, limit)->used;
            &&& n <= limit
            &&& used <= s.len()
            &&& s.take(used as int) == decimal(n) + crlf()
        }),
{
    let run = digit_run(s);
    lemma_digit_run_bounds(s);
    let digits = s.take(run as int);
    assert forall|j: int| 0 <= j < digits.len() implies is_digit(#[trigger] digits[j]) by {
        assert(digits[j] == s[j]);
    }
    assert(digits[0] == s[0]);
    lemma_decimal_of_value(digits);
    assert(s.take(run as int + 2) =~= digits + crlf());
}

/// A bulk string that scans is the bulk string of its text.
pub proof fn lemma_scanned_bulk_is_bulk_string(s: Seq<u8>)
    requires
        scan_bulk(s) is Done,
    ensures
        ({
            let text = scan_bulk(s)->value;
            let used = scan_bulk(s)->used;
            &&& encode_utf8(text).len() <= MAX_BULK_LEN
            &&& 0 < used <= s.len()
            &&& s.take(used as int) == bulk_string(text)
        }),
{
    let header = scan_number(s.skip(1), MAX_BULK_LEN as nat);
    lemma_scanned_number_is_decimal(s.skip(1), MAX_BULK_LEN as nat);
    let len = header->value;
    let start = 1 + header->used;
    let end = start + len;
    let data = s.subrange(start as int, end as int);
    decode_utf8_encode_utf8(data);
    assert(s.take(start as int) =~= seq![DOLLAR] + s.skip(1).take(header->used as int));
    assert(s.take(end as int + 2) =~= s.take(start as int) + data + crlf());
}

/// Bulk strings that scan are the bulk strings of their texts.
pub proof fn lemma_scanned_bulks_are_bulk_strings(s: Seq<u8>, count: nat)
    requires
        scan_bulks(s, count) is Done,
    ensures
        ({
            let items = scan_bulks(s, count)->value;
            let used = scan_bulks(s, count)->used;
            &&& items.len() == count
            &&& forall|i: int|
                0 <= i < items.len() ==> encode_utf8(#[trigger] items[i]).len() <= MAX_BULK_LEN
            &&& used <= s.len()
            &&& count > 0 ==> used > 0
            &&& s.take(used as int) == bulk_strings(items)
        }),
    decreases count,
{
    if count == 0 {
        assert(s.take(0) =~= Seq::<u8>::empty());
    } else {
        lemma_scanned_bulk_is_bulk_string(s);
        let first = scan_bulk(s)->value;
        let used = scan_bulk(s)->used;
        let later = scan_bulks(s.skip(used as int), (count - 1) as nat);
        lemma_scanned_bulks_are_bulk_strings(s.skip(used as int), (count - 1) as nat);
        let items = seq![first] + later->value;
        assert(items.drop_first() =~= later->value);
        assert forall|i: int| 0 <= i < items.len() implies encode_utf8(#[trigger] items[i]).len()
            <= MAX_BULK_LEN by {
            if i > 0 {
                assert(items[i] == later->value[i - 1]);
            }
        }
        assert(s.take(used as int + later->used as int) =~= s.take(used as int) + s.skip(
            used as int,
        ).take(later->used as int));
    }
}

/// What the decoder accepts is what the encoder writes.
///
/// If a request is found at the front of `s`, the bytes it occupies are the
/// frame of its name and arguments, they are kept as its raw bytes, and the
/// request is one that can be encoded.
pub proof fn theorem_decoded_is_encoded(s: Seq<u8>)
    requires
        scan_command(s) is Done,
    ensures
        ({
            let command = scan_command(s)->value;
            let used = scan_command(s)->used;
            &&& encodable(command.name, command.args)
            &&& 0 < used <= s.len()
            &&& s.take(used as int) == command_frame(command.name, command.args)
            &&& command.raw == command_frame(command.name, command.args)
        }),
{
    let header = scan_number(s.skip(1), MAX_ARRAY_LEN as nat);
    assert(s.len() > 0 && s[0] == STAR && header is Done);
    let count = header->value;
    let start = 1 + header->used;
    let body = scan_bulks(s.skip(start as int), count);
    assert(count > 0 && body is Done);
    let parts = body->value;
    let name = parts[0];
    let args = parts.drop_first();
    let used = start + body->used;
    assert(scan_command(s) == Scan::Done {
        value: CommandView { name, args, raw: s.take(used as int) },
        used,
    });
    lemma_scanned_number_is_decimal(s.skip(1), MAX_ARRAY_LEN as nat);
    lemma_scanned_bulks_are_bulk_strings(s.skip(start as int), count);
    assert(encodable(name, args)) by {
        assert forall|i: int| 0 <= i < args.len() implies encode_utf8(#[trigger] args[i]).len()
            <= MAX_BULK_LEN by {
            assert(args[i] == parts[i + 1]);
        }
    }
    let head = s.take(start as int);
    let tail = s.skip(start as int).take(body->used as int);
    assert(head == array_header(count)) by {
        assert(head =~= seq![STAR] + s.skip(1).take(header->used as int));
        assert(seq![STAR] + (decimal(count) + crlf()) =~= array_header(count));
    }
    assert(tail == bulk_string(name) + bulk_strings(args));
    assert(s.take(used as int) =~= head + tail);
    assert(command_frame(name, args) =~= array_header(count) + (bulk_string(name) + bulk_strings(
        args,
    )));
}

/// Bytes that follow a complete request do not change how it is decoded.
pub proof fn theorem_later_bytes_do_not_matter(s: Seq<u8>, more: Seq<u8>)
    requires
        scan_command(s) is Done,
    ensures
        scan_command(s + more) == scan_command(s),
{
    theorem_decoded_is_encoded(s);
    let command = scan_command(s)->value;
    let used = scan_command(s)->used;
    let frame = command_frame(command.name, command.args);
    assert(s + more =~= frame + (s.skip(used as int) + more));
    assert(s =~= frame + s.skip(used as int));
    theorem_decode_inverts_encode(command.name, command.args, s.skip(used as int) + more);
    theorem_decode_inverts_encode(command.name, command.args, s.skip(used as int));
}

/// More bytes leave a digit run that has ended as it is, and make no digit
/// run shorter.
proof fn lemma_digit_run_of_longer(s: Seq<u8>, more: Seq<u8>)
    ensures
        digit_run(s) < s.len() ==> digit_run(s + more) == digit_run(s),
        digit_run(s + more) >= digit_run(s),
        digit_run(s + more) <= (s + more).len(),
        forall|j: int| 0 <= j < digit_run(s + more) ==> is_digit(#[trigger] (s + more)[j]),
{
    let run = digit_run(s);
    let longer = s + more;
    lemma_digit_run_bounds(s);
    lemma_digit_run_bounds(longer);
    assert forall|j: int| 0 <= j < run implies is_digit(#[trigger] longer[j]) by {
        assert(longer[j] == s[j]);
    }
    if run < s.len() {
        assert(longer[run as int] == s[run as int]);
        lemma_digit_run_is(longer, run);
    } else if digit_run(longer) < run {
        assert(is_digit(longer[digit_run(longer) as int]));
    }
}

/// A length line that scans still scans the same when more bytes follow.
proof fn lemma_scanned_number_stays(s: Seq<u8>, more: Seq<u8>, limit: nat)
    requires
        scan_number(s, limit) is Done,
    ensures
        scan_number(s + more, limit) == scan_number(s, limit),
{
    lemma_scanned_number_is_decimal(s, limit);
    let n = scan_number(s, limit)->value;
    let used = scan_number(s, limit)->used;
    assert(s =~= decimal(n) + crlf() + s.skip(used as int));
    assert(s + more =~= decimal(n) + crlf() + (s.skip(used as int) + more));
    lemma_scan_number_of_decimal(n, limit, s.skip(used as int));
    lemma_scan_number_of_decimal(n, limit, s.skip(used as int) + more);
}

/// A length line that is malformed stays malformed when more bytes follow.
proof fn lemma_malformed_number_stays(s: Seq<u8>, more: Seq<u8>, limit: nat)
    requires
        scan_number(s, limit) is Malformed,
    ensures
        scan_number(s + more, limit) is Malformed,
{
    let run = digit_run(s);
    let longer = s + more;
    let longer_run = digit_run(longer);
    lemma_digit_run_of_longer(s, more);
    lemma_digit_run_bounds(s);
    assert(longer[0] == s[0]);
    if run > 0 && !(run > 1 && s[0] == DIGIT_ZERO) {
        if decimal_value(s.take(run as int)) > limit {
            let digits = longer.take(longer_run as int);
            assert forall|j: int| 0 <= j < digits.len() implies is_digit(#[trigger] digits[j]) by {
                assert(digits[j] == longer[j]);
            }
            lemma_decimal_value_grows(digits, run, longer_run);
            assert(digits.take(run as int) =~= s.take(run as int));
            assert(digits.take(longer_run as int) =~= digits);
        } else {
            assert(longer.take(run as int) =~= s.take(run as int));
            assert(longer[run as int] == s[run as int]);
            if s[run as int] == CR {
                assert(longer[run as int + 1] == s[run as int + 1]);
            }
        }
    }
}

/// A bulk string that scans still scans the same when more bytes follow.
proof fn lemma_scanned_bulk_stays(s: Seq<u8>, more: Seq<u8>)
    requires
        scan_bulk(s) is Done,
    ensures
        scan_bulk(s + more) == scan_bulk(s),
{
    lemma_scanned_bulk_is_bulk_string(s);
    let text = scan_bulk(s)->value;
    let used = scan_bulk(s)->used;
    assert(s =~= bulk_string(text) + s.skip(used as int));
    assert(s + more =~= bulk_string(text) + (s.skip(used as int) + more));
    lemma_scan_bulk_of_string(text, s.skip(used as int));
    lemma_scan_bulk_of_string(text, s.skip(used as int) + more);
}

/// A bulk string that is malformed stays malformed when more bytes follow.
proof fn lemma_malformed_bulk_stays(s: Seq<u8>, more: Seq<u8>)
    requires
        scan_bulk(s) is Malformed,
    ensures
        scan_bulk(s + more) is Malformed,
{
    let longer = s + more;
    assert(longer[0] == s[0]);
    if s[0] == DOLLAR {
        let header = scan_number(s.skip(1), MAX_BULK_LEN as nat);
        assert(longer.skip(1) =~= s.skip(1) + more);
        if header is Malformed {
            lemma_malformed_number_stays(s.skip(1), more, MAX_BULK_LEN as nat);
        } else {
            lemma_scanned_number_stays(s.skip(1), more, MAX_BULK_LEN as nat);
            let start = 1 + header->used;
            let end = start + header->value;
            assert(longer[end as int] == s[end as int]);
            if s[end as int] == CR {
                assert(longer[end as int + 1] == s[end as int + 1]);
                assert(longer.subrange(start as int, end as int) =~= s.subrange(
                    start as int,
                    end as int,
                ));
            }
        }
    }
}

/// Bulk strings of which one is malformed stay so when more bytes follow.
proof fn lemma_malformed_bulks_stay(s: Seq<u8>, more: Seq<u8>, count: nat)
    requires
        scan_bulks(s, count) is Malformed,
    ensures
        scan_bulks(s + more, count) is Malformed,
    decreases count,
{
    if scan_bulk(s) is Malformed {
        lemma_malformed_bulk_stays(s, more);
    } else {
        lemma_scanned_bulk_stays(s, more);
        lemma_scanned_bulk_is_bulk_string(s);
        let used = scan_bulk(s)->used;
        assert((s + more).skip(used as int) =~= s.skip(used as int) + more);
        lemma_malformed_bulks_stay(s.skip(used as int), more, (count - 1) as nat);
    }
}

/// Bytes that cannot become a request never will.
///
/// If the decoder refuses `s`, it refuses `s` followed by any other bytes:
/// a connection that is closed for a malformed frame would not have been
/// saved by waiting.
pub proof fn theorem_malformed_stays_malformed(s: Seq<u8>, more: Seq<u8>)
    requires
        scan_command(s) is Malformed,
    ensures
        scan_command(s + more) is Malformed,
{
    let longer = s + more;
    assert(longer[0] == s[0]);
    if s[0] == STAR {
        let header = scan_number(s.skip(1), MAX_ARRAY_LEN as nat);
        assert(longer.skip(1) =~= s.skip(1) + more);
        if header is Malformed {
            lemma_malformed_number_stays(s.skip(1), more, MAX_ARRAY_LEN as nat);
        } else {
            lemma_scanned_number_stays(s.skip(1), more, MAX_ARRAY_LEN as nat);
            lemma_scanned_number_is_decimal(s.skip(1), MAX_ARRAY_LEN as nat);
            let start = 1 + header->used;
            if header->value > 0 {
                assert(longer.skip(start as int) =~= s.skip(start as int) + more);
                lemma_malformed_bulks_stay(s.skip(start as int), more, header->value);
            }
        }
    }
}

} // verus!
