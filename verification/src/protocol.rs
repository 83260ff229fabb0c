//! The datagram protocol: which command a message asks this host for, what
//! is answered, and where the answer goes.
use vstd::prelude::*;
use vstd::utf8::{decode_utf8, valid_utf8};
use crate::mouse::{
    handle_mouse_command, handle_mouse_move, mouse_action_spec, move_request_spec, MouseAction,
    MouseActionSpec, MoveRequest, MoveRequestSpec,
};
use crate::text::{
    digit_char_of, chars_of, decimal, extend_chars, has_prefix, push_decimal, same_chars, slice_of, starts_with,
    string_of, trim, trim_chars,
};

verus! {

/// The port on which requests are received.
pub const LISTEN_PORT: u16 = 8888;

/// The port to which answers are sent.
pub const RESPONSE_PORT: u16 = 8887;

/// What a request asks this host to do.
#[derive(Debug, PartialEq, Eq)]
pub enum Command {
    /// Shut the machine down.
    Shutdown,
    /// Run this shell command and answer with its output.
    RunCommand(String),
    /// Answer with this text, which names the device.
    ReportDevice(String),
    /// Move the pointer by the offsets of the request.
    MouseMove(MoveRequest),
    /// Carry out a button or wheel action.
    Mouse(MouseAction),
    /// Nothing that this host understands.
    Unknown,
}

/// The mathematical value of a [`Command`].
pub enum CommandSpec {
    Shutdown,
    RunCommand(Seq<char>),
    ReportDevice(Seq<char>),
    MouseMove(MoveRequestSpec),
    Mouse(MouseActionSpec),
    Unknown,
}

impl View for Command {
    type V = CommandSpec;

    open spec fn view(&self) -> CommandSpec {
        match self {
            Command::Shutdown => CommandSpec::Shutdown,
            Command::RunCommand(c) => CommandSpec::RunCommand(c@),
            Command::ReportDevice(t) => CommandSpec::ReportDevice(t@),
            Command::MouseMove(r) => CommandSpec::MouseMove(r@),
            Command::Mouse(a) => CommandSpec::Mouse(a@),
            Command::Unknown => CommandSpec::Unknown,
        }
    }
}

/// The prefix of a command addressed to `host` by name.
pub open spec fn host_cmd_prefix(host: Seq<char>) -> Seq<char> {
    "cmd "@ + host + " "@
}

/// The prefix of a pointer move addressed to `host` by name.
pub open spec fn host_move_prefix(host: Seq<char>) -> Seq<char> {
    "mouse move "@ + host + " "@
}

/// The text with which this host names itself in answer to `get_device`.
pub open spec fn device_reply_spec(host: Seq<char>) -> Seq<char> {
    "device: "@ + host
}

/// The command that the message `msg` asks of the host named `host`. The
/// tests are made in this order and the first that holds decides.
pub open spec fn command_spec(host: Seq<char>, msg: Seq<char>) -> CommandSpec {
    if msg == "shutdown "@ + host || msg == "shutdown all"@ {
        CommandSpec::Shutdown
    } else if has_prefix(msg, host_cmd_prefix(host)) {
        CommandSpec::RunCommand(msg.skip(host_cmd_prefix(host).len() as int))
    } else if has_prefix(msg, "cmd all "@) {
        CommandSpec::RunCommand(msg.skip("cmd all "@.len() as int))
    } else if has_prefix(msg, "get_device"@) {
        CommandSpec::ReportDevice(device_reply_spec(host))
    } else if has_prefix(msg, "mouse move all"@) || has_prefix(msg, host_move_prefix(host)) {
        CommandSpec::MouseMove(move_request_spec(msg, host))
    } else if has_prefix(msg, "mouse all"@) || has_prefix(msg, "mouse "@ + host) {
        CommandSpec::Mouse(mouse_action_spec(msg, host))
    } else {
        CommandSpec::Unknown
    }
}

fn literal_then(lit: &str, host: &Vec<char>, tail: &str) -> (v: Vec<char>)
    ensures
        v@ == lit@ + host@ + tail@,
{
    let mut v = chars_of(lit);
    extend_chars(&mut v, host);
    extend_chars(&mut v, &chars_of(tail));
    v
}

/// The command that the text `message` asks of the host named `hostname`.
pub fn dispatch(hostname: &str, message: &str) -> (command: Command)
    ensures
        command@ == command_spec(hostname@, message@),
{
    let host = chars_of(hostname);
    let msg = chars_of(message);
    proof {
        reveal_strlit("");
    }
    let shutdown_host = literal_then("shutdown ", &host, "");
    assert(shutdown_host@ =~= "shutdown "@ + hostname@);
    if same_chars(&msg, &shutdown_host) || same_chars(&msg, &chars_of("shutdown all")) {
        return Command::Shutdown;
    }
    let cmd_host = literal_then("cmd ", &host, " ");
    if starts_with(&msg, &cmd_host) {
        let rest = slice_of(&msg, cmd_host.len(), msg.len());
        assert(rest@ =~= message@.skip(host_cmd_prefix(hostname@).len() as int));
        return Command::RunCommand(string_of(&rest));
    }
    let cmd_all = chars_of("cmd all ");
    if starts_with(&msg, &cmd_all) {
        let rest = slice_of(&msg, cmd_all.len(), msg.len());
        assert(rest@ =~= message@.skip("cmd all "@.len() as int));
        return Command::RunCommand(string_of(&rest));
    }
    if starts_with(&msg, &chars_of("get_device")) {
        let reply = literal_then("device: ", &host, "");
        assert(reply@ =~= device_reply_spec(hostname@));
        return Command::ReportDevice(string_of(&reply));
    }
    if starts_with(&msg, &chars_of("mouse move all")) || starts_with(
        &msg,
        &literal_then("mouse move ", &host, " "),
    ) {
        return Command::MouseMove(handle_mouse_move(message, hostname));
    }
    let mouse_host = literal_then("mouse ", &host, "");
    assert(mouse_host@ =~= "mouse "@ + hostname@);
    if starts_with(&msg, &chars_of("mouse all")) || starts_with(&msg, &mouse_host) {
        return Command::Mouse(handle_mouse_command(message, hostname));
    }
    Command::Unknown
}

/// Decodes a received datagram as UTF-8 text.
///
/// Trusted: calls `std::str::from_utf8`, which the standard library
/// documents as succeeding exactly when the bytes are valid UTF-8, and then
/// giving the text they encode.
#[verifier::external_body]
fn utf8_text(bytes: &[u8]) -> (text: Option<&str>)
    ensures
        text is Some <==> valid_utf8(bytes@),
        text matches Some(t) ==> t@ == decode_utf8(bytes@),
{
    std::str::from_utf8(bytes).ok()
}

/// What a received datagram asks of the host named `hostname`: `None` when
/// the datagram is not UTF-8 text (it is then ignored), else the command that
/// its text asks for.
pub fn handle_datagram(hostname: &str, datagram: &[u8]) -> (command: Option<Command>)
    ensures
        command is None <==> !valid_utf8(datagram@),
        command matches Some(c) ==> c@ == command_spec(hostname@, decode_utf8(datagram@)),
{
    match utf8_text(datagram) {
        None => None,
        Some(message) => Some(dispatch(hostname, message)),
    }
}

/// The answer to a shell command whose output was `output`.
pub fn command_reply(output: &str) -> (reply: String)
    ensures
        reply@ == "cmd "@ + output@,
{
    let mut v = chars_of("cmd ");
    extend_chars(&mut v, &chars_of(output));
    string_of(&v)
}

/// The part of `s` before its first `:`, or all of `s` when it has none.
pub open spec fn before_colon(s: Seq<char>) -> Seq<char>
    decreases s.len(),
{
    if s.len() == 0 || s[0] == ':' {
        Seq::empty()
    } else {
        seq![s[0]] + before_colon(s.drop_first())
    }
}

proof fn lemma_before_colon(s: Seq<char>, n: int)
    requires
        0 <= n <= s.len(),
        forall|k: int| 0 <= k < n ==> #[trigger] s[k] != ':',
        n == s.len() || s[n] == ':',
    ensures
        before_colon(s) == s.take(n),
    decreases n,
{
    if n == 0 {
        assert(s.take(0) =~= Seq::<char>::empty());
    } else {
        lemma_before_colon(s.drop_first(), n - 1);
        assert(seq![s[0]] + s.drop_first().take(n - 1) =~= s.take(n));
    }
}

/// Where the answer to a request from `sender` (an address written
/// `host:port`) goes: the same host, at the answer port.
pub open spec fn response_address_spec(sender: Seq<char>) -> Seq<char> {
    before_colon(sender) + ":"@ + decimal(RESPONSE_PORT as nat)
}

/// The address to which the answer to a request from `sender` is sent:
/// the text of `sender` before its first `:`, then `:` and the answer port.
pub fn response_address(sender: &str) -> (address: String)
    ensures
        address@ == response_address_spec(sender@),
{
    let s = chars_of(sender);
    let mut n: usize = 0;
    while n < s.len() && s[n] != ':'
        invariant
            n <= s.len(),
            forall|k: int| 0 <= k < n ==> #[trigger] s@[k] != ':',
        decreases s.len() - n,
    {
        n = n + 1;
    }
    proof {
        lemma_before_colon(s@, n as int);
    }
    let mut v = slice_of(&s, 0, n);
    assert(v@ =~= s@.take(n as int));
    extend_chars(&mut v, &chars_of(":"));
    push_decimal(&mut v, RESPONSE_PORT);
    string_of(&v)
}

/// Text that a program wrote, as `String::from_utf8_lossy` decodes it.
pub uninterp spec fn lossy_text(bytes: Seq<u8>) -> Seq<char>;

/// Decodes program output as UTF-8, replacing what is not valid.
///
/// Trusted: calls `String::from_utf8_lossy`. Its result is named
/// `lossy_text` of the bytes; the standard library documents that valid
/// UTF-8 is decoded unchanged. What stands in place of invalid sequences
/// (U+FFFD, one per maximal invalid subpart) is left unstated.
#[verifier::external_body]
fn decode_lossy(bytes: &[u8]) -> (text: String)
    ensures
        text@ == lossy_text(bytes@),
        valid_utf8(bytes@) ==> text@ == decode_utf8(bytes@),
{
    String::from_utf8_lossy(bytes).to_string()
}

/// The text of a finished program's output stream.
pub fn output_text(bytes: &[u8]) -> (text: String)
    ensures
        text@ == lossy_text(bytes@),
        valid_utf8(bytes@) ==> text@ == decode_utf8(bytes@),
{
    decode_lossy(bytes)
}

/// The outcome of a shell command that has finished: its standard output
/// when it succeeded, else its standard error as the failure.
pub fn command_result(success: bool, stdout: &[u8], stderr: &[u8]) -> (result: Result<
    String,
    String,
>)
    ensures
        match result {
            Ok(out) => {
                &&& success
                &&& out@ == lossy_text(stdout@)
                &&& valid_utf8(stdout@) ==> out@ == decode_utf8(stdout@)
            },
            Err(err) => {
                &&& !success
                &&& err@ == lossy_text(stderr@)
                &&& valid_utf8(stderr@) ==> err@ == decode_utf8(stderr@)
            },
        },
{
    if success {
        Ok(decode_lossy(stdout))
    } else {
        Err(decode_lossy(stderr))
    }
}

/// `text` without leading and trailing whitespace.
pub fn trimmed(text: &str) -> (t: String)
    ensures
        t@ == trim(text@),
{
    string_of(&trim_chars(&chars_of(text)))
}


/// A shutdown request for everyone, or for this host by name, is always
/// taken as a shutdown.
pub proof fn law_shutdown_requests(host: Seq<char>)
    ensures
        command_spec(host, "shutdown all"@) == CommandSpec::Shutdown,
        command_spec(host, "shutdown "@ + host) == CommandSpec::Shutdown,
{
}

/// Whether `name` holds no space character.
pub open spec fn no_space(name: Seq<char>) -> bool {
    forall|k: int| 0 <= k < name.len() ==> #[trigger] name[k] != ' '
}

/// Two space-free names followed by a space: if one such prefix begins the
/// other text, the names are the same.
proof fn lemma_word_prefix(a: Seq<char>, b: Seq<char>, text: Seq<char>)
    requires
        no_space(a),
        no_space(b),
        has_prefix(a + " "@ + text, b + " "@),
    ensures
        a == b,
{
    reveal_strlit(" ");
    let s = a + " "@ + text;
    let p = b + " "@;
    let n = b.len() as int;
    assert(s.take(p.len() as int) == p);
    assert(p[n] == ' ');
    assert(s[n] == ' ') by {
        assert(s.take(p.len() as int)[n] == s[n]);
    }
    assert forall|k: int| 0 <= k < n implies b[k] == s[k] by {
        assert(p[k] == b[k]);
        assert(s.take(p.len() as int)[k] == s[k]);
    }
    if n < a.len() {
        assert(s[n] == a[n]);
    } else if n > a.len() {
        assert(s[a.len() as int] == ' ');
        assert(b[a.len() as int] == s[a.len() as int]);
    } else {
        assert forall|k: int| 0 <= k < n implies a[k] == b[k] by {
            assert(s[k] == a[k]);
        }
        assert(a =~= b);
    }
}

/// When `lit + rest` begins with `lit + p`, `rest` begins with `p`.
proof fn lemma_drop_literal(lit: Seq<char>, rest: Seq<char>, p: Seq<char>)
    requires
        has_prefix(lit + rest, lit + p),
    ensures
        has_prefix(rest, p),
{
    let s = lit + rest;
    let q = lit + p;
    assert(s.take(q.len() as int) == q);
    assert forall|k: int| 0 <= k < p.len() implies rest[k] == p[k] by {
        assert(s.take(q.len() as int)[lit.len() + k] == s[lit.len() + k]);
        assert(q[lit.len() + k] == p[k]);
    }
    assert(rest.take(p.len() as int) =~= p);
}

/// A command sent to everyone (`cmd all <text>`) is run as `<text>` on every
/// host whose name holds no space.
pub proof fn law_command_for_all(host: Seq<char>, text: Seq<char>)
    requires
        no_space(host),
    ensures
        command_spec(host, "cmd all "@ + text) == CommandSpec::RunCommand(text),
{
    reveal_strlit("cmd all ");
    reveal_strlit("cmd ");
    reveal_strlit(" ");
    reveal_strlit("all");
    reveal_strlit("shutdown ");
    reveal_strlit("shutdown all");
    let msg = "cmd all "@ + text;
    assert(msg[0] == 'c');
    assert(("shutdown "@ + host)[0] == 's');
    assert(msg != "shutdown "@ + host);
    assert(msg != "shutdown all"@);
    assert(has_prefix(msg, "cmd all "@)) by {
        assert(msg.take(8) =~= "cmd all "@);
    }
    assert(msg.skip(8) =~= text);
    if has_prefix(msg, host_cmd_prefix(host)) {
        assert(msg =~= "cmd "@ + ("all"@ + " "@ + text));
        assert(host_cmd_prefix(host) =~= "cmd "@ + (host + " "@));
        lemma_drop_literal("cmd "@, "all"@ + " "@ + text, host + " "@);
        lemma_word_prefix("all"@, host, text);
    }
}

/// A command addressed by name to another host (a space-free name other
/// than this host's and other than `all`) is not taken as a command here.
pub proof fn law_command_for_others(host: Seq<char>, other: Seq<char>, text: Seq<char>)
    requires
        no_space(host),
        no_space(other),
        other != host,
        other != "all"@,
    ensures
        !(command_spec(host, "cmd "@ + other + " "@ + text) is RunCommand),
{
    reveal_strlit("cmd all ");
    reveal_strlit("cmd ");
    reveal_strlit(" ");
    reveal_strlit("all");
    let msg = "cmd "@ + other + " "@ + text;
    assert(msg =~= "cmd "@ + (other + " "@ + text));
    if has_prefix(msg, host_cmd_prefix(host)) {
        assert(host_cmd_prefix(host) =~= "cmd "@ + (host + " "@));
        lemma_drop_literal("cmd "@, other + " "@ + text, host + " "@);
        lemma_word_prefix(other, host, text);
    }
    if has_prefix(msg, "cmd all "@) {
        assert("cmd all "@ =~= "cmd "@ + ("all"@ + " "@));
        lemma_drop_literal("cmd "@, other + " "@ + text, "all"@ + " "@);
        lemma_word_prefix(other, "all"@, text);
    }
}

/// A shutdown request that names another host (a name other than this
/// host's and other than `all`) is not taken as any command here.
pub proof fn law_shutdown_for_others(host: Seq<char>, other: Seq<char>)
    requires
        other != host,
        other != "all"@,
    ensures
        command_spec(host, "shutdown "@ + other) == CommandSpec::Unknown,
{
    reveal_strlit("shutdown ");
    reveal_strlit("shutdown all");
    reveal_strlit("all");
    reveal_strlit("cmd ");
    reveal_strlit("cmd all ");
    reveal_strlit("get_device");
    reveal_strlit("mouse move all");
    reveal_strlit("mouse move ");
    reveal_strlit("mouse all");
    reveal_strlit("mouse ");
    let msg = "shutdown "@ + other;
    assert(msg != "shutdown "@ + host) by {
        if msg == "shutdown "@ + host {
            assert(msg.skip(9) =~= other);
            assert(("shutdown "@ + host).skip(9) =~= host);
        }
    }
    assert(msg != "shutdown all"@) by {
        assert("shutdown all"@ =~= "shutdown "@ + "all"@);
        if msg == "shutdown all"@ {
            assert(msg.skip(9) =~= other);
            assert(("shutdown "@ + "all"@).skip(9) =~= "all"@);
        }
    }
    assert(msg[0] == 's');
    assert forall|p: Seq<char>| p.len() > 0 && p[0] != 's' implies !has_prefix(msg, p) by {
        if has_prefix(msg, p) {
            assert(msg.take(p.len() as int)[0] == msg[0]);
        }
    }
    assert(host_cmd_prefix(host)[0] == 'c');
    assert(host_move_prefix(host)[0] == 'm');
    assert(("mouse "@ + host)[0] == 'm');
}

/// A request to name the device is answered with `device: <host>`,
/// whatever follows `get_device`.
pub proof fn law_device_report(host: Seq<char>, text: Seq<char>)
    ensures
        command_spec(host, "get_device"@ + text) == CommandSpec::ReportDevice("device: "@ + host),
{
    reveal_strlit("get_device");
    reveal_strlit("cmd all ");
    reveal_strlit("cmd ");
    reveal_strlit("shutdown ");
    reveal_strlit("shutdown all");
    let msg = "get_device"@ + text;
    assert(msg[0] == 'g');
    assert(("shutdown "@ + host)[0] == 's');
    assert(msg != "shutdown "@ + host);
    assert(msg != "shutdown all"@);
    assert(!has_prefix(msg, host_cmd_prefix(host))) by {
        assert(host_cmd_prefix(host)[0] == 'c');
        if has_prefix(msg, host_cmd_prefix(host)) {
            assert(msg.take(host_cmd_prefix(host).len() as int)[0] == msg[0]);
        }
    }
    assert(!has_prefix(msg, "cmd all "@)) by {
        if has_prefix(msg, "cmd all "@) {
            assert(msg.take(8)[0] == msg[0]);
        }
    }
    assert(has_prefix(msg, "get_device"@)) by {
        assert(msg.take(10) =~= "get_device"@);
    }
}


/// A command addressed to this host by its own name (`cmd <host> <text>`)
/// is run exactly as written.
pub proof fn law_command_for_this_host(host: Seq<char>, text: Seq<char>)
    ensures
        command_spec(host, "cmd "@ + host + " "@ + text) == CommandSpec::RunCommand(text),
{
    reveal_strlit("cmd ");
    reveal_strlit(" ");
    reveal_strlit("shutdown ");
    reveal_strlit("shutdown all");
    let msg = "cmd "@ + host + " "@ + text;
    let p = host_cmd_prefix(host);
    assert(msg[0] == 'c');
    assert(("shutdown "@ + host)[0] == 's');
    assert(msg != "shutdown "@ + host);
    assert(msg != "shutdown all"@);
    assert(msg.take(p.len() as int) =~= p);
    assert(msg.skip(p.len() as int) =~= text);
}

/// The name reported for `get_device` is the one this host answers to: a
/// shutdown sent back to that name is taken as a shutdown here.
pub proof fn law_reported_name_answers(host: Seq<char>, text: Seq<char>)
    ensures
        command_spec(host, "get_device"@ + text) matches CommandSpec::ReportDevice(reply) && has_prefix(
            reply,
            "device: "@,
        ) && command_spec(host, "shutdown "@ + reply.skip(8)) == CommandSpec::Shutdown,
{
    reveal_strlit("device: ");
    law_device_report(host, text);
    let reply = "device: "@ + host;
    assert(reply.take(8) =~= "device: "@);
    assert(reply.skip(8) =~= host);
}


proof fn first_colon(s: Seq<char>) -> (n: int)
    ensures
        0 <= n <= s.len(),
        forall|k: int| 0 <= k < n ==> s[k] != ':',
        n == s.len() || s[n] == ':',
    decreases s.len(),
{
    if s.len() == 0 || s[0] == ':' {
        0
    } else {
        let m = first_colon(s.drop_first());
        assert forall|k: int| 0 <= k < m + 1 implies s[k] != ':' by {
            if k > 0 {
                assert(s[k] == s.drop_first()[k - 1]);
            }
        }
        m + 1
    }
}

/// The answer to a request goes to the sender's host, unchanged, at port
/// 8887: the address is the sender's text up to (not including) its first
/// `:`, or all of it when it has none, followed by `:8887`.
pub proof fn law_response_address(sender: Seq<char>)
    ensures
        exists|n: int|
            #![trigger sender.take(n)]
            0 <= n <= sender.len() && response_address_spec(sender) == sender.take(n) + ":8887"@
                && (forall|k: int| 0 <= k < n ==> sender[k] != ':') && (n == sender.len()
                || sender[n] == ':'),
{
    reveal_strlit(":");
    reveal_strlit(":8887");
    let n = first_colon(sender);
    lemma_before_colon(sender, n);
    assert(decimal(8) == seq!['8']);
    assert(decimal(88) == seq!['8', '8']) by {
        assert(decimal(88) == decimal(8).push(digit_char_of(8)));
    }
    assert(decimal(888) == seq!['8', '8', '8']) by {
        assert(decimal(888) == decimal(88).push(digit_char_of(8)));
    }
    assert(decimal(8887) == seq!['8', '8', '8', '7']) by {
        assert(decimal(8887) == decimal(888).push(digit_char_of(7)));
    }
    assert(":"@ + decimal(8887) =~= ":8887"@);
    assert(response_address_spec(sender) =~= sender.take(n) + ":8887"@);
}


/// A message that begins with `m` is neither a shutdown, nor a shell
/// command, nor a device query.
proof fn lemma_mouse_message(host: Seq<char>, msg: Seq<char>)
    requires
        msg.len() > 0,
        msg[0] == 'm',
    ensures
        msg != "shutdown "@ + host,
        msg != "shutdown all"@,
        !has_prefix(msg, host_cmd_prefix(host)),
        !has_prefix(msg, "cmd all "@),
        !has_prefix(msg, "get_device"@),
{
    reveal_strlit("shutdown ");
    reveal_strlit("shutdown all");
    reveal_strlit("cmd ");
    reveal_strlit("cmd all ");
    reveal_strlit("get_device");
    assert(("shutdown "@ + host)[0] == 's');
    assert(host_cmd_prefix(host)[0] == 'c');
    assert forall|p: Seq<char>| p.len() > 0 && p[0] != 'm' implies !has_prefix(msg, p) by {
        if has_prefix(msg, p) {
            assert(msg.take(p.len() as int)[0] == msg[0]);
        }
    }
}

/// A pointer move addressed to this host by name, `mouse move <host> <x>
/// <y>` with two words `x` and `y`, is taken as a move by exactly those
/// offsets.
pub proof fn law_move_command(host: Seq<char>, x: Seq<char>, y: Seq<char>)
    requires
        x.len() > 0,
        y.len() > 0,
        forall|k: int| 0 <= k < x.len() ==> !crate::text::is_space(#[trigger] x[k]),
        forall|k: int| 0 <= k < y.len() ==> !crate::text::is_space(#[trigger] y[k]),
    ensures
        command_spec(host, "mouse move "@ + host + " "@ + x + " "@ + y) == CommandSpec::MouseMove(
            MoveRequestSpec::Offsets(x, y),
        ),
{
    reveal_strlit("mouse move ");
    reveal_strlit(" ");
    let msg = "mouse move "@ + host + " "@ + x + " "@ + y;
    assert(msg[0] == 'm');
    lemma_mouse_message(host, msg);
    let p = host_move_prefix(host);
    assert(msg.take(p.len() as int) =~= p);
    crate::mouse::law_move_request(host, x, y);
}

/// A button request addressed to this host by name, `mouse <host>
/// <phrase>` for a host name without spaces, is taken as that button action.
pub proof fn law_button_commands(host: Seq<char>)
    requires
        no_space(host),
    ensures
        command_spec(host, "mouse "@ + host + " "@ + "left click"@) == CommandSpec::Mouse(
            MouseActionSpec::LeftClick,
        ),
        command_spec(host, "mouse "@ + host + " "@ + "right click"@) == CommandSpec::Mouse(
            MouseActionSpec::RightClick,
        ),
        command_spec(host, "mouse "@ + host + " "@ + "middle click"@) == CommandSpec::Mouse(
            MouseActionSpec::MiddleClick,
        ),
        command_spec(host, "mouse "@ + host + " "@ + "right click down"@) == CommandSpec::Mouse(
            MouseActionSpec::RightDown,
        ),
        command_spec(host, "mouse "@ + host + " "@ + "right click up"@) == CommandSpec::Mouse(
            MouseActionSpec::RightUp,
        ),
        command_spec(host, "mouse "@ + host + " "@ + "left click down"@) == CommandSpec::Mouse(
            MouseActionSpec::LeftDown,
        ),
        command_spec(host, "mouse "@ + host + " "@ + "left click up"@) == CommandSpec::Mouse(
            MouseActionSpec::LeftUp,
        ),
{
    crate::mouse::law_button_requests(host);
    lemma_button_command(host, "left click"@);
    lemma_button_command(host, "right click"@);
    lemma_button_command(host, "middle click"@);
    lemma_button_command(host, "right click down"@);
    lemma_button_command(host, "right click up"@);
    lemma_button_command(host, "left click down"@);
    lemma_button_command(host, "left click up"@);
}

proof fn lemma_button_command(host: Seq<char>, phrase: Seq<char>)
    requires
        no_space(host),
        phrase == "left click"@ || phrase == "right click"@ || phrase == "middle click"@ || phrase
            == "right click down"@ || phrase == "right click up"@ || phrase == "left click down"@
            || phrase == "left click up"@,
    ensures
        command_spec(host, "mouse "@ + host + " "@ + phrase) == CommandSpec::Mouse(
            mouse_action_spec("mouse "@ + host + " "@ + phrase, host),
        ),
{
    reveal_strlit("mouse ");
    reveal_strlit(" ");
    reveal_strlit("move");
    reveal_strlit("all");
    reveal_strlit("mouse move all");
    reveal_strlit("mouse move ");
    reveal_strlit("left click");
    reveal_strlit("right click");
    reveal_strlit("middle click");
    reveal_strlit("right click down");
    reveal_strlit("right click up");
    reveal_strlit("left click down");
    reveal_strlit("left click up");
    let msg = "mouse "@ + host + " "@ + phrase;
    assert(msg[0] == 'm');
    lemma_mouse_message(host, msg);
    let body = host + " "@ + phrase;
    assert(msg =~= "mouse "@ + body);
    // A move prefix would make the host name `move`, and the phrase begin
    // with `all` or `move `, which no button phrase does.
    if has_prefix(msg, "mouse move all"@) {
        assert("mouse move all"@ =~= "mouse "@ + ("move"@ + " "@ + "all"@));
        crate::mouse::lemma_drop_prefix("mouse "@, body, "move"@ + " "@ + "all"@);
        assert(body.take(5) =~= ("move"@ + " "@ + "all"@).take(5));
        assert(body.take(5) =~= "move"@ + " "@);
        lemma_word_prefix(host, "move"@, phrase);
        assert(phrase[0] == body[5]);
        assert(body.take(8)[5] == body[5]);
        assert(("move"@ + " "@ + "all"@)[5] == 'a');
        assert(false);
    }
    if has_prefix(msg, host_move_prefix(host)) {
        assert(host_move_prefix(host) =~= "mouse "@ + ("move"@ + " "@ + (host + " "@)));
        crate::mouse::lemma_drop_prefix("mouse "@, body, "move"@ + " "@ + (host + " "@));
        assert(body.take(5) =~= ("move"@ + " "@ + (host + " "@)).take(5));
        assert(body.take(5) =~= "move"@ + " "@);
        lemma_word_prefix(host, "move"@, phrase);
        let q = "move"@ + " "@ + (host + " "@);
        assert(phrase[1] == body[6]);
        assert(body.take(q.len() as int)[6] == body[6]);
        assert(q[6] == 'o');
        assert(false);
    }
    assert(msg.take(("mouse "@ + host).len() as int) =~= "mouse "@ + host);
}

} // verus!
