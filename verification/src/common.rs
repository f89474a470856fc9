//! The data that travels between the agent and the viewer.

use vstd::prelude::*;

verus! {

/// One parsed log line of one service.
#[derive(Clone, Debug, PartialEq, Eq)]
pub struct LogEntry {
    pub service: String,
    pub timestamp: String,
    pub level: String,
    pub context: String,
    pub message: String,
}

/// The messages of the agent/viewer protocol.
#[derive(Clone, Debug, PartialEq, Eq)]
pub enum NetworkPacket {
    /// First message of a viewer: the shared secret.
    Handshake { secret_token: String },
    /// The agent's answer to a handshake.
    HandshakeAck { accepted: bool },
    /// A batch of log entries, oldest first.
    Batch(Vec<LogEntry>),
    /// The viewer asks for entries of one service only (`None`: all).
    UpdateFilter { service: Option<String> },
}

/// Upper-case form of a string, as `str::to_uppercase` computes it
/// (Unicode `Uppercase` mapping, character by character).
pub uninterp spec fn uppercase(s: Seq<char>) -> Seq<char>;

/// Calls `str::to_uppercase`. Trusted: the result is the Unicode upper-case
/// mapping of `s`, a function of `s` alone, here named `uppercase`; nothing
/// more about that mapping is stated.
#[verifier::external_body]
fn str_to_uppercase(s: &str) -> (r: String)
    ensures
        r@ == uppercase(s@),
{
    s.to_uppercase()
}

/// Whether `c` has the Unicode `White_Space` property (what
/// `char::is_whitespace` tests): U+0009 to U+000D, U+0020, U+0085, U+00A0,
/// U+1680, U+2000 to U+200A, U+2028, U+2029, U+202F, U+205F and U+3000.
pub open spec fn is_white_space(c: char) -> bool {
    let u = c as u32;
    ||| 0x9 <= u <= 0xD
    ||| u == 0x20
    ||| u == 0x85
    ||| u == 0xA0
    ||| u == 0x1680
    ||| 0x2000 <= u <= 0x200A
    ||| u == 0x2028
    ||| u == 0x2029
    ||| u == 0x202F
    ||| u == 0x205F
    ||| u == 0x3000
}

/// `s` without its leading whitespace.
pub open spec fn trim_start(s: Seq<char>) -> Seq<char>
    decreases s.len(),
{
    if s.len() > 0 && is_white_space(s[0]) {
        trim_start(s.drop_first())
    } else {
        s
    }
}

/// `s` without its trailing whitespace.
pub open spec fn trim_end(s: Seq<char>) -> Seq<char>
    decreases s.len(),
{
    if s.len() > 0 && is_white_space(s.last()) {
        trim_end(s.drop_last())
    } else {
        s
    }
}

/// `s` without its leading and trailing whitespace (what `str::trim` gives).
pub open spec fn trimmed(s: Seq<char>) -> Seq<char> {
    trim_end(trim_start(s))
}

/// Whether `c` has the Unicode `White_Space` property.
fn is_white_space_char(c: char) -> (b: bool)
    ensures
        b == is_white_space(c),
{
    let u = c as u32;
    (0x9 <= u && u <= 0xD) || u == 0x20 || u == 0x85 || u == 0xA0 || u == 0x1680 || (0x2000 <= u
        && u <= 0x200A) || u == 0x2028 || u == 0x2029 || u == 0x202F || u == 0x205F || u == 0x3000
}

/// `s` without its leading and trailing whitespace.
pub fn str_trim(s: &str) -> (r: &str)
    ensures
        r@ == trimmed(s@),
{
    let n = s.unicode_len();
    let mut i: usize = 0;
    assert(s@.skip(0) =~= s@);
    while i < n && is_white_space_char(s.get_char(i))
        invariant
            n == s@.len(),
            i <= n,
            trim_start(s@) == trim_start(s@.skip(i as int)),
        decreases n - i,
    {
        assert(s@.skip(i as int).drop_first() =~= s@.skip(i + 1));
        i = i + 1;
    }
    assert(trim_start(s@) =~= s@.subrange(i as int, n as int));
    let mut j: usize = n;
    while j > i && is_white_space_char(s.get_char(j - 1))
        invariant
            n == s@.len(),
            i <= j <= n,
            trim_end(s@.subrange(i as int, n as int)) == trim_end(s@.subrange(i as int, j as int)),
        decreases j,
    {
        assert(s@.subrange(i as int, j as int).drop_last() =~= s@.subrange(i as int, j - 1));
        j = j - 1;
    }
    s.substring_char(i, j)
}

/// A text without leading or trailing whitespace trims to itself.
pub proof fn lemma_trim_fixed(t: Seq<char>)
    requires
        t.len() == 0 || (!is_white_space(t[0]) && !is_white_space(t.last())),
    ensures
        trimmed(t) == t,
{
}

proof fn lemma_trim_end_shape(s: Seq<char>)
    ensures
        trim_end(s).len() <= s.len(),
        trim_end(s) == s.take(trim_end(s).len() as int),
        trim_end(s).len() > 0 ==> !is_white_space(trim_end(s).last()),
    decreases s.len(),
{
    if s.len() > 0 && is_white_space(s.last()) {
        lemma_trim_end_shape(s.drop_last());
        assert(s.drop_last().take(trim_end(s).len() as int) =~= s.take(trim_end(s).len() as int));
    } else {
        assert(s.take(s.len() as int) =~= s);
    }
}

proof fn lemma_trim_start_shape(s: Seq<char>)
    ensures
        trim_start(s).len() > 0 ==> !is_white_space(trim_start(s)[0]),
    decreases s.len(),
{
    if s.len() > 0 && is_white_space(s[0]) {
        lemma_trim_start_shape(s.drop_first());
    }
}

/// A trimmed text is empty or starts and ends with a character that is
/// not whitespace.
pub proof fn lemma_trimmed_shape(s: Seq<char>)
    ensures
        trimmed(s).len() == 0 || (!is_white_space(trimmed(s)[0]) && !is_white_space(
            trimmed(s).last(),
        )),
{
    lemma_trim_start_shape(s);
    lemma_trim_end_shape(trim_start(s));
    if trimmed(s).len() > 0 {
        assert(trimmed(s)[0] == trim_start(s)[0]);
    }
}

/// The one-line rendering of an entry:
/// `[timestamp] [SERVICE] [level] (context) message`.
pub open spec fn display_line(e: LogEntry) -> Seq<char> {
    seq!['['] + e.timestamp@ + seq![']', ' ', '['] + uppercase(e.service@) + seq![']', ' ', '[']
        + e.level@ + seq![']', ' ', '('] + e.context@ + seq![')', ' '] + e.message@
}

impl LogEntry {
    /// An equal copy of the entry.
    pub fn duplicate(&self) -> (r: LogEntry)
        ensures
            r == *self,
    {
        LogEntry {
            service: self.service.clone(),
            timestamp: self.timestamp.clone(),
            level: self.level.clone(),
            context: self.context.clone(),
            message: self.message.clone(),
        }
    }

    /// Renders the entry as `[timestamp] [SERVICE] [level] (context) message`.
    pub fn to_display_string(&self) -> (r: String)
        ensures
            r@ == display_line(*self),
    {
        let mut out = String::new();
        out.append("[");
        out.append(self.timestamp.as_str());
        out.append("] [");
        let upper = str_to_uppercase(self.service.as_str());
        out.append(upper.as_str());
        out.append("] [");
        out.append(self.level.as_str());
        out.append("] (");
        out.append(self.context.as_str());
        out.append(") ");
        out.append(self.message.as_str());
        proof {
            reveal_strlit("[");
            reveal_strlit("] [");
            reveal_strlit("] (");
            reveal_strlit(") ");
        }
        assert(out@ =~= display_line(*self));
        out
    }
}

/// Whether the agent's answer to a viewer's handshake (`None`: bytes that
/// were no packet) lets the viewer go on: only an acknowledgement that
/// accepts does.
pub fn handshake_accepted(reply: Option<NetworkPacket>) -> (ok: bool)
    ensures
        ok == (reply matches Some(NetworkPacket::HandshakeAck { accepted: true })),
{
    match reply {
        Some(NetworkPacket::HandshakeAck { accepted }) => accepted,
        _ => false,
    }
}

} // verus!
