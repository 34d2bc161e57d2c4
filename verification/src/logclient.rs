//! The logging collaborator's client side: severity levels, the decisions
//! of whether a message is shown on the console or sent to the remote
//! sink, and the exact line format of the sink's protocol. The network
//! send itself is the caller's; a failure there has no effect on anything
//! verified here.

use vstd::prelude::*;
use vstd::string::StringSliceAdditionalSpecFns;
use vstd::utf8::encode_utf8;
use crate::ascii::bytes_eq;
use crate::decimal::{dec_pad4, fmt_u64_pad4};
use crate::dispatch::append_bytes;

verus! {

/// Severity of a log message, and the threshold a logger is set to.
#[derive(Clone, Copy, PartialEq, Eq, Structural, Debug)]
pub enum LogLevel {
    Debug,
    Info,
    Warn,
    Error,
}

/// An ASCII lower-case letter turned upper-case; any other byte kept.
pub open spec fn spec_upper(b: u8) -> u8 {
    if 97 <= b && b <= 122 {
        (b - 32) as u8
    } else {
        b
    }
}

pub open spec fn spec_upper_seq(s: Seq<u8>) -> Seq<u8> {
    s.map_values(|b: u8| spec_upper(b))
}

/// `DEBUG`
pub open spec fn word_debug() -> Seq<u8> {
    seq![68u8, 69u8, 66u8, 85u8, 71u8]
}

/// `INFO`
pub open spec fn word_info() -> Seq<u8> {
    seq![73u8, 78u8, 70u8, 79u8]
}

/// `WARN`
pub open spec fn word_warn() -> Seq<u8> {
    seq![87u8, 65u8, 82u8, 78u8]
}

/// `ERROR`
pub open spec fn word_error() -> Seq<u8> {
    seq![69u8, 82u8, 82u8, 79u8, 82u8]
}

/// `DEBG`, the four-byte wire tag of debug messages.
pub open spec fn tag_debg() -> Seq<u8> {
    seq![68u8, 69u8, 66u8, 71u8]
}

/// `ERRO`, the four-byte wire tag of error messages.
pub open spec fn tag_erro() -> Seq<u8> {
    seq![69u8, 82u8, 82u8, 79u8]
}

/// `ACTV`, the four-byte wire tag of activity messages.
pub open spec fn tag_actv() -> Seq<u8> {
    seq![65u8, 67u8, 84u8, 86u8]
}

/// The level a configuration word names, compared without regard to ASCII
/// case; anything unrecognised falls back to `Info`.
pub open spec fn spec_level_of_word(s: Seq<u8>) -> LogLevel {
    let u = spec_upper_seq(s);
    if u == word_debug() {
        LogLevel::Debug
    } else if u == word_info() {
        LogLevel::Info
    } else if u == word_warn() {
        LogLevel::Warn
    } else if u == word_error() {
        LogLevel::Error
    } else {
        LogLevel::Info
    }
}

/// The level behind a four-byte wire tag; `ACTV` and anything unknown
/// count as `Info`.
pub open spec fn spec_level_of_tag(s: Seq<u8>) -> LogLevel {
    if s == tag_debg() {
        LogLevel::Debug
    } else if s == word_warn() {
        LogLevel::Warn
    } else if s == tag_erro() {
        LogLevel::Error
    } else {
        LogLevel::Info
    }
}

impl LogLevel {
    /// How severe the level is; used only to compare levels.
    pub open spec fn severity(self) -> int {
        match self {
            LogLevel::Debug => 0,
            LogLevel::Info => 1,
            LogLevel::Warn => 2,
            LogLevel::Error => 3,
        }
    }

    /// Parse a configuration word such as `debug` or `ERROR`; unknown
    /// words give the `Info` default.
    pub fn from_str(level: &str) -> (r: Self)
        ensures
            r == spec_level_of_word(level.spec_bytes()),
    {
        let bytes = level.as_bytes();
        let n = bytes.len();
        let mut upper: Vec<u8> = Vec::new();
        let mut i: usize = 0;
        proof {
            assert(upper@ =~= spec_upper_seq(bytes@.take(0)));
        }
        while i < n
            invariant
                n == bytes@.len(),
                i <= n,
                upper@ == spec_upper_seq(bytes@.take(i as int)),
            decreases n - i,
        {
            let b = bytes[i];
            let u: u8 = if b >= 97 && b <= 122 {
                b - 32
            } else {
                b
            };
            proof {
                assert(spec_upper_seq(bytes@.take(i + 1)) =~= spec_upper_seq(
                    bytes@.take(i as int),
                ).push(spec_upper(bytes@[i as int])));
            }
            upper.push(u);
            i = i + 1;
        }
        proof {
            assert(bytes@.take(n as int) =~= bytes@);
        }
        let w_debug: [u8; 5] = [68u8, 69u8, 66u8, 85u8, 71u8];
        let w_info: [u8; 4] = [73u8, 78u8, 70u8, 79u8];
        let w_warn: [u8; 4] = [87u8, 65u8, 82u8, 78u8];
        let w_error: [u8; 5] = [69u8, 82u8, 82u8, 79u8, 82u8];
        proof {
            assert(w_debug@ =~= word_debug());
            assert(w_info@ =~= word_info());
            assert(w_warn@ =~= word_warn());
            assert(w_error@ =~= word_error());
        }
        if bytes_eq(upper.as_slice(), w_debug.as_slice()) {
            LogLevel::Debug
        } else if bytes_eq(upper.as_slice(), w_info.as_slice()) {
            LogLevel::Info
        } else if bytes_eq(upper.as_slice(), w_warn.as_slice()) {
            LogLevel::Warn
        } else if bytes_eq(upper.as_slice(), w_error.as_slice()) {
            LogLevel::Error
        } else {
            LogLevel::Info
        }
    }

    /// Whether a message of severity `message_level` passes this
    /// threshold: everything at or above the threshold is logged.
    pub fn should_log(&self, message_level: &LogLevel) -> (r: bool)
        ensures
            r == (message_level.severity() >= self.severity()),
    {
        match (self, message_level) {
            (LogLevel::Debug, _) => true,
            (LogLevel::Info, LogLevel::Info | LogLevel::Warn | LogLevel::Error) => true,
            (LogLevel::Warn, LogLevel::Warn | LogLevel::Error) => true,
            (LogLevel::Error, LogLevel::Error) => true,
            _ => false,
        }
    }
}

/// The level a four-byte wire tag such as `DEBG` or `ERRO` carries.
pub fn level_of_tag(tag: &[u8]) -> (r: LogLevel)
    ensures
        r == spec_level_of_tag(tag@),
{
    let t_debg: [u8; 4] = [68u8, 69u8, 66u8, 71u8];
    let t_warn: [u8; 4] = [87u8, 65u8, 82u8, 78u8];
    let t_erro: [u8; 4] = [69u8, 82u8, 82u8, 79u8];
    proof {
        assert(t_debg@ =~= tag_debg());
        assert(t_warn@ =~= word_warn());
        assert(t_erro@ =~= tag_erro());
    }
    if bytes_eq(tag, t_debg.as_slice()) {
        LogLevel::Debug
    } else if bytes_eq(tag, t_warn.as_slice()) {
        LogLevel::Warn
    } else if bytes_eq(tag, t_erro.as_slice()) {
        LogLevel::Error
    } else {
        LogLevel::Info
    }
}

/// The logging client's settings: where the remote sink lives, the name
/// this process reports itself under, and what is shown or sent.
#[derive(Clone)]
pub struct Logger {
    pub dest: String,
    pub host: String,
    pub log_level: LogLevel,
    pub log_console: bool,
    pub send_actv: bool,
    pub send_log: bool,
}

/// A byte sequence of spaces.
pub open spec fn spaces(n: nat) -> Seq<u8> {
    Seq::new(n, |i: int| 32u8)
}

/// A field truncated to `w` bytes, or padded on the right with spaces up
/// to `w`, as the sink's fixed-width columns demand.
pub open spec fn spec_pad_trunc(s: Seq<u8>, w: nat) -> Seq<u8> {
    if s.len() >= w {
        s.take(w as int)
    } else {
        s + spaces((w - s.len()) as nat)
    }
}

/// One line of the sink's protocol: level and code in four columns, host
/// in thirty-two, the message length zero-padded to four digits, then the
/// message.
pub open spec fn spec_log_line(lvl: Seq<u8>, host: Seq<u8>, code: Seq<u8>, msg: Seq<u8>) -> Seq<
    u8,
> {
    spec_pad_trunc(lvl, 4) + seq![32u8] + spec_pad_trunc(host, 32) + seq![32u8] + spec_pad_trunc(
        code,
        4,
    ) + seq![32u8] + dec_pad4(msg.len()) + seq![58u8, 32u8] + msg + seq![10u8]
}

/// Append a fixed-width column.
fn append_pad_trunc(dst: &mut Vec<u8>, s: &[u8], w: usize)
    ensures
        final(dst)@ == old(dst)@ + spec_pad_trunc(s@, w as nat),
{
    if s.len() >= w {
        let head: &[u8] = &s[0..w];
        proof {
            assert(head@ =~= s@.take(w as int));
        }
        append_bytes(dst, head);
    } else {
        append_bytes(dst, s);
        let pad = w - s.len();
        let mut i: usize = 0;
        let ghost base = dst@;
        while i < pad
            invariant
                i <= pad,
                dst@ =~= base + spaces(i as nat),
            decreases pad - i,
        {
            proof {
                assert((base + spaces(i as nat)).push(32u8) =~= base + spaces((i + 1) as nat));
            }
            dst.push(32);
            i = i + 1;
        }
    }
}

impl Logger {
    pub fn new(
        dest: String,
        host: String,
        log_level: LogLevel,
        log_console: bool,
        send_actv: bool,
        send_log: bool,
    ) -> (r: Self)
        ensures
            r.dest@ == dest@,
            r.host@ == host@,
            r.log_level == log_level,
            r.log_console == log_console,
            r.send_actv == send_actv,
            r.send_log == send_log,
    {
        Logger { dest, host, log_level, log_console, send_actv, send_log }
    }

    /// Whether a message with this wire tag is shown on the console: the
    /// console must be on and the tag's level must pass the threshold.
    pub fn emits_console(&self, tag: &[u8]) -> (r: bool)
        ensures
            r == (self.log_console && spec_level_of_tag(tag@).severity()
                >= self.log_level.severity()),
    {
        let lv = level_of_tag(tag);
        self.log_console && self.log_level.should_log(&lv)
    }

    /// Whether a message with this wire tag is sent to the remote sink:
    /// sending must be on, a destination configured, and activity
    /// messages only when they are switched on.
    pub fn sends_remote(&self, tag: &[u8]) -> (r: bool)
        ensures
            r == (self.send_log && self.dest@.len() > 0 && (tag@ != tag_actv()
                || self.send_actv)),
    {
        let t_actv: [u8; 4] = [65u8, 67u8, 84u8, 86u8];
        proof {
            assert(t_actv@ =~= tag_actv());
        }
        let is_actv = bytes_eq(tag, t_actv.as_slice());
        self.send_log && !self.dest.as_str().is_empty() && (!is_actv || self.send_actv)
    }

    /// The exact line sent to the remote sink for a message.
    pub fn format_log_line(&self, tag: &[u8], code: &[u8], msg: &[u8]) -> (r: Vec<u8>)
        ensures
            r@ == spec_log_line(tag@, encode_utf8(self.host@), code@, msg@),
    {
        let mut out: Vec<u8> = Vec::new();
        append_pad_trunc(&mut out, tag, 4);
        out.push(32);
        let host_bytes = self.host.as_str().as_bytes();
        proof {
            assert(host_bytes@ == encode_utf8(self.host@));
        }
        append_pad_trunc(&mut out, host_bytes, 32);
        out.push(32);
        append_pad_trunc(&mut out, code, 4);
        out.push(32);
        let lenf = fmt_u64_pad4(msg.len() as u64);
        append_bytes(&mut out, lenf.as_slice());
        out.push(58);
        out.push(32);
        append_bytes(&mut out, msg);
        out.push(10);
        proof {
            assert(out@ =~= spec_log_line(tag@, encode_utf8(self.host@), code@, msg@));
        }
        out
    }
}

} // verus!
