//! The launch configuration: the listen port and the master to follow.
use vstd::prelude::*;
use vstd::string::{StrSliceExecFns, StringExecFns};
use vstd::utf8::encode_utf8;
use crate::numbers::{parse_unsigned, parse_unsigned_spec};

verus! {

/// The master of which this server is a replica.
#[derive(Debug, Clone)]
pub struct Replicaof {
    /// The master's host.
    pub host: String,
    /// The master's port.
    pub port: u16,
}

/// What the command line configures.
#[derive(Debug, Clone)]
pub struct CliArgs {
    /// The TCP port to listen on.
    pub port: u16,
    /// The master to follow; absent for a master.
    pub replicaof: Option<Replicaof>,
}

/// Why a text does not name a master.
#[derive(Debug)]
pub enum ParseReplicaofError {
    /// The text holds fewer than two words.
    InvalidArguments,
    /// The second word is no port number; holds that word.
    ParseIntError(String),
}

/// The mathematical content of a [`Replicaof`].
pub struct ReplicaofView {
    pub host: Seq<char>,
    pub port: u16,
}

/// The mathematical content of a [`ParseReplicaofError`].
pub enum ParseReplicaofErrorView {
    InvalidArguments,
    ParseIntError(Seq<char>),
}

impl View for Replicaof {
    type V = ReplicaofView;

    open spec fn view(&self) -> ReplicaofView {
        ReplicaofView { host: self.host@, port: self.port }
    }
}

impl View for ParseReplicaofError {
    type V = ParseReplicaofErrorView;

    open spec fn view(&self) -> ParseReplicaofErrorView {
        match self {
            ParseReplicaofError::InvalidArguments => ParseReplicaofErrorView::InvalidArguments,
            ParseReplicaofError::ParseIntError(word) => ParseReplicaofErrorView::ParseIntError(
                word@,
            ),
        }
    }
}

/// Whether `c` is white space: a character with the Unicode property
/// `White_Space`.
pub open spec fn is_space(c: char) -> bool {
    ||| '\u{9}' <= c <= '\u{d}'
    ||| c == ' '
    ||| c == '\u{85}'
    ||| c == '\u{a0}'
    ||| c == '\u{1680}'
    ||| '\u{2000}' <= c <= '\u{200a}'
    ||| c == '\u{2028}'
    ||| c == '\u{2029}'
    ||| c == '\u{202f}'
    ||| c == '\u{205f}'
    ||| c == '\u{3000}'
}

/// The number of characters at the front of `s` that are white space, if
/// `spaces` is set, or that are not, if it is not.
pub open spec fn run_of(s: Seq<char>, spaces: bool) -> nat
    decreases s.len(),
{
    if s.len() > 0 && is_space(s[0]) == spaces {
        1 + run_of(s.drop_first(), spaces)
    } else {
        0
    }
}

/// `s` without the white space at its front.
pub open spec fn trim_front(s: Seq<char>) -> Seq<char> {
    s.skip(run_of(s, true) as int)
}

/// The first word of `s`: what stands between the white space at the front
/// and the next white space. It is empty if `s` holds no word.
pub open spec fn first_word(s: Seq<char>) -> Seq<char> {
    trim_front(s).take(run_of(trim_front(s), false) as int)
}

/// What follows the first word of `s`.
pub open spec fn after_first_word(s: Seq<char>) -> Seq<char> {
    trim_front(s).skip(run_of(trim_front(s), false) as int)
}

/// The second word of `s`; empty if `s` holds fewer than two words.
pub open spec fn second_word(s: Seq<char>) -> Seq<char> {
    first_word(after_first_word(s))
}

/// The port that `word` denotes, if it is one: an unsigned decimal number
/// of at most 65535.
pub open spec fn port_number(word: Seq<char>) -> Option<nat> {
    parse_unsigned_spec(encode_utf8(word), 65535)
}

/// The master that `text` names: its first word is the host and its second
/// word the port; whatever follows is ignored.
pub open spec fn parse_replicaof(text: Seq<char>) -> Result<ReplicaofView, ParseReplicaofErrorView> {
    if second_word(text).len() == 0 {
        Err(ParseReplicaofErrorView::InvalidArguments)
    } else {
        match port_number(second_word(text)) {
            Some(port) => Ok(ReplicaofView { host: first_word(text), port: port as u16 }),
            None => Err(ParseReplicaofErrorView::ParseIntError(second_word(text))),
        }
    }
}

/// The master that `text` is taken to name when no error can be reported:
/// the empty host and port 0 for fewer than two words, and port 0 for a
/// second word that is no port.
pub open spec fn replicaof_or_default(text: Seq<char>) -> ReplicaofView {
    match parse_replicaof(text) {
        Ok(replicaof) => replicaof,
        Err(ParseReplicaofErrorView::InvalidArguments) => ReplicaofView {
            host: Seq::<char>::empty(),
            port: 0,
        },
        Err(ParseReplicaofErrorView::ParseIntError(_)) => ReplicaofView {
            host: first_word(text),
            port: 0,
        },
    }
}

/// A run of `k` characters of one kind that ends at the end of `s` or
/// before a character of the other kind is the run at the front of `s`.
pub proof fn lemma_run_is(s: Seq<char>, spaces: bool, k: nat)
    requires
        k <= s.len(),
        forall|j: int| 0 <= j < k ==> is_space(#[trigger] s[j]) == spaces,
        k < s.len() ==> is_space(s[k as int]) != spaces,
    ensures
        run_of(s, spaces) == k,
    decreases k,
{
    if k > 0 {
        let rest = s.drop_first();
        assert forall|j: int| 0 <= j < k - 1 implies is_space(#[trigger] rest[j]) == spaces by {
            assert(rest[j] == s[j + 1]);
        }
        if k < s.len() {
            assert(rest[k - 1] == s[k as int]);
        }
        lemma_run_is(rest, spaces, (k - 1) as nat);
    }
}

/// Whether `c` is white space.
pub fn char_is_space(c: char) -> (space: bool)
    ensures
        space == is_space(c),
{
    ('\u{9}' <= c && c <= '\u{d}') || c == ' ' || c == '\u{85}' || c == '\u{a0}' || c
        == '\u{1680}' || ('\u{2000}' <= c && c <= '\u{200a}') || c == '\u{2028}' || c
        == '\u{2029}' || c == '\u{202f}' || c == '\u{205f}' || c == '\u{3000}'
}

/// The characters of `text`.
fn chars_of(text: &str) -> (chars: Vec<char>)
    ensures
        chars@ == text@,
{
    let mut chars: Vec<char> = Vec::new();
    for c in it: text.chars()
        invariant
            it.seq() == text@,
            chars@ == it.seq().take(it.index() as int),
    {
        chars.push(c);
        assert(chars@ =~= it.seq().take(it.index() + 1));
    }
    assert(text@.take(text@.len() as int) =~= text@);
    chars
}

/// The end of the run of white space, or of other characters, that begins
/// at `from`.
fn run_end(chars: &Vec<char>, from: usize, spaces: bool) -> (end: usize)
    requires
        from <= chars.len(),
    ensures
        from <= end <= chars.len(),
        end - from == run_of(chars@.skip(from as int), spaces),
{
    let ghost s = chars@.skip(from as int);
    let mut end: usize = from;
    while end < chars.len() && char_is_space(chars[end]) == spaces
        invariant
            from <= end <= chars.len(),
            s == chars@.skip(from as int),
            forall|j: int| 0 <= j < end - from ==> is_space(#[trigger] s[j]) == spaces,
        decreases chars.len() - end,
    {
        assert(s[end - from] == chars[end as int]);
        end += 1;
    }
    proof {
        if end < chars.len() {
            assert(s[end - from] == chars[end as int]);
        }
        lemma_run_is(s, spaces, (end - from) as nat);
    }
    end
}

impl Replicaof {
    /// Reads the master that `text` names: a host and a port, set apart by
    /// white space.
    pub fn parse(text: &str) -> (result: Result<Replicaof, ParseReplicaofError>)
        ensures
            match result {
                Ok(replicaof) => parse_replicaof(text@) == Ok::<
                    ReplicaofView,
                    ParseReplicaofErrorView,
                >(replicaof@),
                Err(error) => parse_replicaof(text@) == Err::<
                    ReplicaofView,
                    ParseReplicaofErrorView,
                >(error@),
            },
    {
        let chars = chars_of(text);
        let host_start = run_end(&chars, 0, true);
        let host_end = run_end(&chars, host_start, false);
        let port_start = run_end(&chars, host_end, true);
        let port_end = run_end(&chars, port_start, false);
        proof {
            let s = text@;
            assert(s.skip(0) =~= s);
            assert(trim_front(s) =~= s.skip(host_start as int));
            assert(first_word(s) =~= s.subrange(host_start as int, host_end as int));
            assert(after_first_word(s) =~= s.skip(host_end as int));
            assert(trim_front(after_first_word(s)) =~= s.skip(port_start as int));
            assert(second_word(s) =~= s.subrange(port_start as int, port_end as int));
        }
        if port_start == port_end {
            return Err(ParseReplicaofError::InvalidArguments);
        }
        let host = text.substring_char(host_start, host_end);
        let word = text.substring_char(port_start, port_end);
        match parse_unsigned(word.as_bytes(), 65535) {
            Some(port) => Ok(Replicaof { host: String::from_str(host), port: port as u16 }),
            None => Err(ParseReplicaofError::ParseIntError(String::from_str(word))),
        }
    }
}

impl Replicaof {
    /// Reads the master that `s` names, and falls back where it names none:
    /// to the empty host and port 0 for fewer than two words, to port 0 for
    /// a second word that is no port.
    pub fn from(s: String) -> (replicaof: Replicaof)
        ensures
            replicaof@ == replicaof_or_default(s@),
    {
        match Replicaof::parse(s.as_str()) {
            Ok(replicaof) => replicaof,
            Err(ParseReplicaofError::InvalidArguments) => Replicaof {
                host: String::new(),
                port: 0,
            },
            Err(ParseReplicaofError::ParseIntError(_)) => {
                let chars = chars_of(s.as_str());
                let host_start = run_end(&chars, 0, true);
                let host_end = run_end(&chars, host_start, false);
                proof {
                    assert(s@.skip(0) =~= s@);
                    assert(first_word(s@) =~= s@.subrange(host_start as int, host_end as int));
                }
                Replicaof {
                    host: String::from_str(s.as_str().substring_char(host_start, host_end)),
                    port: 0,
                }
            },
        }
    }
}

} // verus!
