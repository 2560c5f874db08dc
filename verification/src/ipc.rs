//! The single-instance protocol: one request line from a second instance to
//! the running one (`SNIPE/<version> <COMMAND>`), one response word back.

use vstd::prelude::*;
use crate::text::{chars_eq_str, chars_of, dec, is_ws, push_char, push_dec, push_str, trim, trim_chars, trim_end, trim_start};

verus! {

pub const MUTEX_NAME: &'static str = "Local\\Snipe_SingleInstance_Mutex";
pub const PIPE_NAME: &'static str = "\\\\.\\pipe\\Snipe_IPC_Pipe";
pub const IPC_PROTOCOL_VERSION: u32 = 1;
/// Longest request line the running instance reads, in bytes.
pub const MAX_IPC_MESSAGE_BYTES: usize = 1024;

/// What a second instance asks the running one to do.
#[derive(Debug, Clone, Copy, PartialEq, Eq, Structural)]
pub enum IpcCommand {
    OpenSettings,
    Ping,
    ShutdownForUpdate,
}

/// The running instance's answer.
#[derive(Debug, Clone, Copy, PartialEq, Eq, Structural)]
pub enum IpcResponse {
    Ready,
    Busy,
    Cancelled,
    Incompatible,
    Rejected,
}

/// The word that carries a response on the wire.
pub open spec fn response_wire(r: IpcResponse) -> Seq<char> {
    match r {
        IpcResponse::Ready => "ready"@,
        IpcResponse::Busy => "busy"@,
        IpcResponse::Cancelled => "cancelled"@,
        IpcResponse::Incompatible => "incompatible"@,
        IpcResponse::Rejected => "rejected"@,
    }
}

/// The response named by a received text, after trimming white space.
pub open spec fn spec_parse_response(value: Seq<char>) -> Option<IpcResponse> {
    let t = trim(value);
    if t == "ready"@ { Some(IpcResponse::Ready) }
    else if t == "busy"@ { Some(IpcResponse::Busy) }
    else if t == "cancelled"@ { Some(IpcResponse::Cancelled) }
    else if t == "incompatible"@ { Some(IpcResponse::Incompatible) }
    else if t == "rejected"@ { Some(IpcResponse::Rejected) }
    else { None }
}

/// The word that carries a command on the wire.
pub open spec fn command_wire(c: IpcCommand) -> Seq<char> {
    match c {
        IpcCommand::OpenSettings => "OPEN_SETTINGS"@,
        IpcCommand::Ping => "PING"@,
        IpcCommand::ShutdownForUpdate => "SHUTDOWN_FOR_UPDATE"@,
    }
}

/// The request line a second instance sends for a command.
pub open spec fn spec_request_line(c: IpcCommand) -> Seq<char> {
    "SNIPE/"@ + dec(IPC_PROTOCOL_VERSION as nat) + seq![' '] + command_wire(c) + seq!['\n']
}

/// Index of the first occurrence of `c`, if any.
pub open spec fn first_index(s: Seq<char>, c: char) -> Option<int>
    decreases s.len(),
{
    if s.len() == 0 {
        None
    } else if s[0] == c {
        Some(0)
    } else {
        match first_index(s.drop_first(), c) {
            Some(i) => Some(i + 1),
            None => None,
        }
    }
}

pub open spec fn is_digit(c: char) -> bool {
    '0' <= c <= '9'
}

/// Value of a string of decimal digits.
pub open spec fn digits_value(s: Seq<char>) -> int
    decreases s.len(),
{
    if s.len() == 0 {
        0
    } else {
        digits_value(s.drop_last()) * 10 + (s.last() as int - '0' as int)
    }
}

/// What `str::parse::<u32>` accepts: an optional `+` followed by at least one
/// decimal digit, of value at most `u32::MAX`.
/// The digits of an unsigned number: the text without one leading `+`.
pub open spec fn unsigned_digits(s: Seq<char>) -> Seq<char> {
    if s.len() > 0 && s[0] == '+' { s.drop_first() } else { s }
}

pub open spec fn spec_parse_u32(s: Seq<char>) -> Option<u32> {
    let d = unsigned_digits(s);
    if d.len() == 0 || !(forall|i: int| 0 <= i < d.len() ==> is_digit(#[trigger] d[i])) {
        None
    } else if digits_value(d) > u32::MAX {
        None
    } else {
        Some(digits_value(d) as u32)
    }
}

/// How the running instance judges a (trimmed) request line: it must be
/// `SNIPE/<version> <COMMAND>` split at the first space, the version a `u32`
/// equal to this protocol's, and the command one of the known words.
pub open spec fn spec_parse_command(line: Seq<char>) -> Result<IpcCommand, IpcResponse> {
    match first_index(line, ' ') {
        None => Err(IpcResponse::Rejected),
        Some(sp) => {
            let version = line.subrange(0, sp);
            let command = line.subrange(sp + 1, line.len() as int);
            if !(version.len() >= 6 && version.subrange(0, 6) == "SNIPE/"@) {
                Err(IpcResponse::Rejected)
            } else {
                match spec_parse_u32(version.subrange(6, version.len() as int)) {
                    None => Err(IpcResponse::Rejected),
                    Some(v) => if v != IPC_PROTOCOL_VERSION {
                        Err(IpcResponse::Incompatible)
                    } else if command == "OPEN_SETTINGS"@ {
                        Ok(IpcCommand::OpenSettings)
                    } else if command == "PING"@ {
                        Ok(IpcCommand::Ping)
                    } else if command == "SHUTDOWN_FOR_UPDATE"@ {
                        Ok(IpcCommand::ShutdownForUpdate)
                    } else {
                        Err(IpcResponse::Rejected)
                    },
                }
            }
        },
    }
}

impl IpcResponse {
    /// The word that carries the response on the wire.
    pub fn as_wire(self) -> (s: &'static str)
        ensures
            s@ == response_wire(self),
    {
        match self {
            IpcResponse::Ready => "ready",
            IpcResponse::Busy => "busy",
            IpcResponse::Cancelled => "cancelled",
            IpcResponse::Incompatible => "incompatible",
            IpcResponse::Rejected => "rejected",
        }
    }

    /// The response named by a received text (surrounding white space
    /// ignored), if any.
    pub fn parse(value: &str) -> (r: Option<IpcResponse>)
        ensures
            r == spec_parse_response(value@),
    {
        let chars = chars_of(value);
        let t = trim_chars(&chars);
        if chars_eq_str(&t, "ready") { Some(IpcResponse::Ready) }
        else if chars_eq_str(&t, "busy") { Some(IpcResponse::Busy) }
        else if chars_eq_str(&t, "cancelled") { Some(IpcResponse::Cancelled) }
        else if chars_eq_str(&t, "incompatible") { Some(IpcResponse::Incompatible) }
        else if chars_eq_str(&t, "rejected") { Some(IpcResponse::Rejected) }
        else { None }
    }
}

/// The request line a second instance sends for a command.
pub fn request_line(command: IpcCommand) -> (s: String)
    ensures
        s@ == spec_request_line(command),
{
    let mut s = String::new();
    push_str(&mut s, "SNIPE/");
    push_dec(&mut s, IPC_PROTOCOL_VERSION as u64);
    push_char(&mut s, ' ');
    match command {
        IpcCommand::OpenSettings => push_str(&mut s, "OPEN_SETTINGS"),
        IpcCommand::Ping => push_str(&mut s, "PING"),
        IpcCommand::ShutdownForUpdate => push_str(&mut s, "SHUTDOWN_FOR_UPDATE"),
    }
    push_char(&mut s, '\n');
    s
}

fn first_index_exec(v: &Vec<char>, c: char) -> (r: Option<usize>)
    ensures
        r matches Some(i) ==> i < v@.len() && first_index(v@, c) == Some(i as int),
        r is None ==> first_index(v@, c) is None,
{
    let mut i: usize = 0;
    while i < v.len()
        invariant
            i <= v@.len(),
            forall|j: int| 0 <= j < i ==> v@[j] != c,
        decreases v@.len() - i,
    {
        if v[i] == c {
            proof { lemma_first_index_found(v@, c, i as int); }
            return Some(i);
        }
        i = i + 1;
    }
    proof { lemma_first_index_none(v@, c); }
    None
}

proof fn lemma_first_index_found(s: Seq<char>, c: char, i: int)
    requires
        0 <= i < s.len(),
        s[i] == c,
        forall|j: int| 0 <= j < i ==> s[j] != c,
    ensures
        first_index(s, c) == Some(i),
    decreases i,
{
    if i > 0 {
        lemma_first_index_found(s.drop_first(), c, i - 1);
    }
}

proof fn lemma_first_index_none(s: Seq<char>, c: char)
    requires
        forall|j: int| 0 <= j < s.len() ==> s[j] != c,
    ensures
        first_index(s, c) is None,
    decreases s.len(),
{
    if s.len() > 0 {
        lemma_first_index_none(s.drop_first(), c);
    }
}

fn sub_chars(v: &Vec<char>, a: usize, b: usize) -> (r: Vec<char>)
    requires
        a <= b <= v@.len(),
    ensures
        r@ == v@.subrange(a as int, b as int),
{
    let mut r: Vec<char> = Vec::new();
    let mut i = a;
    while i < b
        invariant
            a <= i <= b <= v@.len(),
            r@ == v@.subrange(a as int, i as int),
        decreases b - i,
    {
        r.push(v[i]);
        i = i + 1;
    }
    r
}

/// Parses digits as `str::parse::<u32>` does.
pub fn parse_u32(s: &Vec<char>) -> (r: Option<u32>)
    ensures
        r == spec_parse_u32(s@),
{
    let start: usize = if s.len() > 0 && s[0] == '+' { 1 } else { 0 };
    let ghost d = unsigned_digits(s@);
    assert(d == s@.subrange(start as int, s@.len() as int));
    if start == s.len() {
        return None;
    }
    let mut v: u64 = 0;
    let mut i = start;
    while i < s.len()
        invariant
            start <= i <= s@.len(),
            d == unsigned_digits(s@),
            d == s@.subrange(start as int, s@.len() as int),
            forall|j: int| start <= j < i ==> is_digit(#[trigger] s@[j]),
            v == digits_value(s@.subrange(start as int, i as int)),
            v <= u32::MAX,
        decreases s@.len() - i,
    {
        let c = s[i];
        if !('0' <= c && c <= '9') {
            assert(d[i - start] == s@[i as int]);
            assert(!is_digit(d[i - start]));
            assert(!(forall|j: int| 0 <= j < d.len() ==> is_digit(#[trigger] d[j])));
            return None;
        }
        let ghost prefix = s@.subrange(start as int, i + 1);
        assert(prefix.drop_last() == s@.subrange(start as int, i as int));
        v = v * 10 + (c as u64 - '0' as u64);
        i = i + 1;
        if v > u32::MAX as u64 {
            proof {
                assert(s@.subrange(start as int, i as int) == d.subrange(0, i - start));
                if forall|j: int| 0 <= j < d.len() ==> is_digit(#[trigger] d[j]) {
                    lemma_digits_value_grows(d, i - start);
                    assert(digits_value(d) > u32::MAX);
                }
            }
            return None;
        }
    }
    assert(s@.subrange(start as int, s@.len() as int) == d);
    assert(forall|j: int| 0 <= j < d.len() ==> is_digit(#[trigger] d[j]) ) by {
        assert forall|j: int| 0 <= j < d.len() implies is_digit(#[trigger] d[j]) by {
            assert(d[j] == s@[j + start]);
        }
    }
    Some(v as u32)
}

/// Appending digits never makes the value smaller.
proof fn lemma_digits_value_grows(d: Seq<char>, k: int)
    requires
        0 <= k <= d.len(),
        forall|j: int| 0 <= j < d.len() ==> is_digit(#[trigger] d[j]),
    ensures
        digits_value(d) >= digits_value(d.subrange(0, k)),
        digits_value(d) >= 0,
    decreases d.len(),
{
    if d.len() == 0 {
        assert(d.subrange(0, k) == d);
    } else {
        let e = d.drop_last();
        assert forall|j: int| 0 <= j < e.len() implies is_digit(#[trigger] e[j]) by {
            assert(e[j] == d[j]);
        }
        if k == d.len() {
            assert(d.subrange(0, k) == d);
            lemma_digits_value_grows(e, 0);
        } else {
            assert(e.subrange(0, k) == d.subrange(0, k));
            lemma_digits_value_grows(e, k);
        }
        assert(is_digit(d[d.len() - 1]));
    }
}

/// How the running instance judges a request line (already trimmed):
/// `SNIPE/<version> <COMMAND>`, split at the first space. A malformed line or
/// unknown command is rejected, another protocol version is incompatible.
pub fn parse_command(line: &str) -> (r: Result<IpcCommand, IpcResponse>)
    ensures
        r == spec_parse_command(line@),
{
    let chars = chars_of(line);
    let n = chars.len();
    let sp = match first_index_exec(&chars, ' ') {
        Some(i) => i,
        None => return Err(IpcResponse::Rejected),
    };
    let version = sub_chars(&chars, 0, sp);
    let command = sub_chars(&chars, sp + 1, chars.len());
    if version.len() < 6 {
        return Err(IpcResponse::Rejected);
    }
    let prefix = sub_chars(&version, 0, 6);
    if !chars_eq_str(&prefix, "SNIPE/") {
        return Err(IpcResponse::Rejected);
    }
    let digits = sub_chars(&version, 6, version.len());
    let v = match parse_u32(&digits) {
        Some(v) => v,
        None => return Err(IpcResponse::Rejected),
    };
    if v != IPC_PROTOCOL_VERSION {
        return Err(IpcResponse::Incompatible);
    }
    if chars_eq_str(&command, "OPEN_SETTINGS") {
        Ok(IpcCommand::OpenSettings)
    } else if chars_eq_str(&command, "PING") {
        Ok(IpcCommand::Ping)
    } else if chars_eq_str(&command, "SHUTDOWN_FOR_UPDATE") {
        Ok(IpcCommand::ShutdownForUpdate)
    } else {
        Err(IpcResponse::Rejected)
    }
}

/// How the running instance answers a received line of `byte_count` bytes:
/// an empty or over-long read is rejected, otherwise the trimmed line is
/// judged by `parse_command`.
pub fn classify_request(line: &str, byte_count: usize) -> (r: Result<IpcCommand, IpcResponse>)
    ensures
        (byte_count == 0 || byte_count > MAX_IPC_MESSAGE_BYTES) ==> r == Err::<IpcCommand, IpcResponse>(IpcResponse::Rejected),
        !(byte_count == 0 || byte_count > MAX_IPC_MESSAGE_BYTES) ==> r == spec_parse_command(trim(line@)),
{
    if byte_count == 0 || byte_count > MAX_IPC_MESSAGE_BYTES {
        return Err(IpcResponse::Rejected);
    }
    let chars = chars_of(line);
    let t = trim_chars(&chars);
    let s = crate::text::string_from_chars(&t);
    parse_command(s.as_str())
}

/// What the running instance does with an accepted request.
#[derive(Debug, Clone, Copy, PartialEq, Eq, Structural)]
pub enum RequestAction {
    /// Open the settings window, then answer `Ready`.
    OpenSettings,
    /// Answer at once.
    Answer(IpcResponse),
    /// Ask the user to confirm shutting down for an update; the user's
    /// choice gives the answer (see `update_confirmation_answer`).
    ConfirmUpdate,
}

/// How the running instance handles a request: a ping is answered `Ready`,
/// settings are opened, and a shutdown for an update is put to the user
/// unless a task is running (`busy`), which answers `Busy`.
pub fn request_action(command: IpcCommand, busy: bool) -> (a: RequestAction)
    ensures
        command == IpcCommand::OpenSettings ==> a == RequestAction::OpenSettings,
        command == IpcCommand::Ping ==> a == RequestAction::Answer(IpcResponse::Ready),
        command == IpcCommand::ShutdownForUpdate && busy ==> a == RequestAction::Answer(IpcResponse::Busy),
        command == IpcCommand::ShutdownForUpdate && !busy ==> a == RequestAction::ConfirmUpdate,
{
    match command {
        IpcCommand::OpenSettings => RequestAction::OpenSettings,
        IpcCommand::Ping => RequestAction::Answer(IpcResponse::Ready),
        IpcCommand::ShutdownForUpdate => if busy {
            RequestAction::Answer(IpcResponse::Busy)
        } else {
            RequestAction::ConfirmUpdate
        },
    }
}

/// The answer to a shutdown request once the user has chosen.
pub fn update_confirmation_answer(confirmed: bool) -> (r: IpcResponse)
    ensures
        confirmed ==> r == IpcResponse::Ready,
        !confirmed ==> r == IpcResponse::Cancelled,
{
    if confirmed { IpcResponse::Ready } else { IpcResponse::Cancelled }
}

/// What the pipe server writes back for a request it judged: the refusal
/// for a request it did not accept, otherwise the controller's answer, or
/// `Busy` where the controller could not be reached or did not answer in
/// time.
pub fn server_reply(judged: Result<IpcCommand, IpcResponse>, controller_answer: Option<IpcResponse>) -> (r: IpcResponse)
    ensures
        judged matches Err(e) ==> r == e,
        judged is Ok ==> (controller_answer matches Some(a) ==> r == a),
        judged is Ok && controller_answer is None ==> r == IpcResponse::Busy,
{
    match judged {
        Err(e) => e,
        Ok(_) => match controller_answer {
            Some(a) => a,
            None => IpcResponse::Busy,
        },
    }
}

/// The line that carries a response: its word and a line break.
pub fn response_line(r: IpcResponse) -> (s: String)
    ensures
        s@ == response_wire(r).push('\n'),
{
    let mut s = String::new();
    push_str(&mut s, r.as_wire());
    push_char(&mut s, '\n');
    s
}

/// A word that neither starts nor ends with white space is its own trim,
/// also with a line break after it.
proof fn lemma_trim_word(w: Seq<char>)
    requires
        w.len() > 0,
        !is_ws(w[0]),
        !is_ws(w.last()),
    ensures
        trim(w) == w,
        trim(w.push('\n')) == w,
{
    let l = w.push('\n');
    assert(l[0] == w[0]);
    assert(trim_start(l) == l);
    assert(l.drop_last() =~= w);
    assert(is_ws(l.last()));
    assert(trim_end(l) == trim_end(w));
}

/// A response word sent with its line break is read back as the same
/// response.
pub proof fn lemma_response_roundtrip(r: IpcResponse)
    ensures
        spec_parse_response(response_wire(r)) == Some(r),
        spec_parse_response(response_wire(r).push('\n')) == Some(r),
{
    reveal_strlit("ready");
    reveal_strlit("busy");
    reveal_strlit("cancelled");
    reveal_strlit("incompatible");
    reveal_strlit("rejected");
    lemma_trim_word(response_wire(r));
}

/// The request line that a second instance sends for a command is accepted
/// by the running instance as that same command.
pub proof fn lemma_request_roundtrip(c: IpcCommand)
    ensures
        spec_parse_command(trim(spec_request_line(c))) == Ok::<IpcCommand, IpcResponse>(c),
{
    reveal_strlit("SNIPE/");
    reveal_strlit("OPEN_SETTINGS");
    reveal_strlit("PING");
    reveal_strlit("SHUTDOWN_FOR_UPDATE");
    let w = command_wire(c);
    assert(dec(1) == seq!['1']);
    let l = "SNIPE/"@ + seq!['1'] + seq![' '] + w;
    assert(spec_request_line(c) =~= l.push('\n'));
    lemma_trim_word(l);
    assert(l[7] == ' ');
    assert forall|j: int| 0 <= j < 7 implies l[j] != ' ' by {
        assert(l[j] == "SNIPE/1"@[j]) by { reveal_strlit("SNIPE/1"); }
        reveal_strlit("SNIPE/1");
    }
    lemma_first_index_found(l, ' ', 7);
    let version = l.subrange(0, 7);
    assert(version.subrange(0, 6) =~= "SNIPE/"@);
    let digits = version.subrange(6, 7);
    assert(digits =~= seq!['1']);
    assert(unsigned_digits(digits) == digits);
    assert(digits.drop_last() =~= Seq::<char>::empty());
    assert(digits_value(digits.drop_last()) == 0);
    assert(digits.last() == '1');
    assert(digits_value(digits) == 1);
    assert(spec_parse_u32(digits) == Some(1u32));
    assert(l.subrange(8, l.len() as int) =~= w);
}

} // verus!
