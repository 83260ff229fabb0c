//! Mouse requests: which action a `mouse ...` message asks for, the offsets
//! of a `mouse move ...` message, and the input-device operations that carry
//! an action out.
use vstd::prelude::*;
use crate::text::{
    decimal, law_parse_decimal, signed_decimal, chars_of, has_prefix, next_word, parse_i32, parse_i32_spec, replace_all, replace_chars,
    same_chars, starts_with, string_of, trim, trim_chars, word_at, extend_chars,
};

verus! {

/// A mouse button.
#[derive(Clone, Copy, Debug, PartialEq, Eq, Structural)]
pub enum Button {
    Left,
    Right,
    Middle,
}

/// One operation on the virtual input device: a button pressed or released,
/// a synchronisation report, a relative pointer move along one axis, or a
/// vertical wheel turn.
#[derive(Clone, Copy, Debug, PartialEq, Eq, Structural)]
pub enum DeviceOp {
    Press(Button),
    Release(Button),
    Sync,
    MoveX(i32),
    MoveY(i32),
    Wheel(i32),
}

/// What a `mouse ...` message asks for, once the addressing words are gone.
#[derive(Debug, PartialEq, Eq)]
pub enum MouseAction {
    LeftClick,
    RightClick,
    MiddleClick,
    RightDown,
    RightUp,
    LeftDown,
    LeftUp,
    /// A `scroll` request, with the amount when the text gives a valid one.
    Scroll(Option<i32>),
    /// Anything else; holds the text that was not understood.
    Unknown(String),
}

/// The mathematical value of a [`MouseAction`].
pub enum MouseActionSpec {
    LeftClick,
    RightClick,
    MiddleClick,
    RightDown,
    RightUp,
    LeftDown,
    LeftUp,
    Scroll(Option<i32>),
    Unknown(Seq<char>),
}

impl View for MouseAction {
    type V = MouseActionSpec;

    open spec fn view(&self) -> MouseActionSpec {
        match self {
            MouseAction::LeftClick => MouseActionSpec::LeftClick,
            MouseAction::RightClick => MouseActionSpec::RightClick,
            MouseAction::MiddleClick => MouseActionSpec::MiddleClick,
            MouseAction::RightDown => MouseActionSpec::RightDown,
            MouseAction::RightUp => MouseActionSpec::RightUp,
            MouseAction::LeftDown => MouseActionSpec::LeftDown,
            MouseAction::LeftUp => MouseActionSpec::LeftUp,
            MouseAction::Scroll(a) => MouseActionSpec::Scroll(*a),
            MouseAction::Unknown(t) => MouseActionSpec::Unknown(t@),
        }
    }
}

/// What a `mouse move ...` message carries: its first two offset words, or
/// the note that it has fewer than two.
#[derive(Debug, PartialEq, Eq)]
pub enum MoveRequest {
    Offsets(String, String),
    BadFormat,
}

/// The mathematical value of a [`MoveRequest`].
pub enum MoveRequestSpec {
    Offsets(Seq<char>, Seq<char>),
    BadFormat,
}

impl View for MoveRequest {
    type V = MoveRequestSpec;

    open spec fn view(&self) -> MoveRequestSpec {
        match self {
            MoveRequest::Offsets(a, b) => MoveRequestSpec::Offsets(a@, b@),
            MoveRequest::BadFormat => MoveRequestSpec::BadFormat,
        }
    }
}

/// The amount that a scroll request names: the text with every `scroll`
/// removed, read as a signed decimal `i32`.
pub open spec fn scroll_amount_spec(message: Seq<char>) -> Option<i32> {
    parse_i32_spec(replace_all(message, "scroll"@, Seq::empty()))
}

/// The text of a `mouse ...` message once `mouse <host>` and `mouse all`
/// are taken out and the rest is trimmed.
pub open spec fn mouse_request_text(msg: Seq<char>, host: Seq<char>) -> Seq<char> {
    trim(replace_all(replace_all(msg, "mouse "@ + host, Seq::empty()), "mouse all"@, Seq::empty()))
}

/// The action that a `mouse ...` message asks for.
pub open spec fn mouse_action_spec(msg: Seq<char>, host: Seq<char>) -> MouseActionSpec {
    let m = mouse_request_text(msg, host);
    if m == "left click"@ {
        MouseActionSpec::LeftClick
    } else if m == "right click"@ {
        MouseActionSpec::RightClick
    } else if m == "middle click"@ {
        MouseActionSpec::MiddleClick
    } else if m == "right click down"@ {
        MouseActionSpec::RightDown
    } else if m == "right click up"@ {
        MouseActionSpec::RightUp
    } else if m == "left click down"@ {
        MouseActionSpec::LeftDown
    } else if m == "left click up"@ {
        MouseActionSpec::LeftUp
    } else if has_prefix(m, "scroll"@) {
        MouseActionSpec::Scroll(scroll_amount_spec(m))
    } else {
        MouseActionSpec::Unknown(m)
    }
}

/// The text of a `mouse move ...` message once `mouse move <host> ` and
/// `mouse move all ` are taken out.
pub open spec fn move_request_text(msg: Seq<char>, host: Seq<char>) -> Seq<char> {
    replace_all(
        replace_all(msg, "mouse move "@ + host + " "@, Seq::empty()),
        "mouse move all "@,
        Seq::empty(),
    )
}

/// The first two whitespace-separated words of a `mouse move ...` message.
pub open spec fn move_request_spec(msg: Seq<char>, host: Seq<char>) -> MoveRequestSpec {
    match next_word(move_request_text(msg, host)) {
        Some((first, rest)) => match next_word(rest) {
            Some((second, _)) => MoveRequestSpec::Offsets(first, second),
            None => MoveRequestSpec::BadFormat,
        },
        None => MoveRequestSpec::BadFormat,
    }
}

/// Reads the amount of a scroll request: `message` with every `scroll`
/// removed, parsed as a signed decimal `i32`; `None` when that text is not
/// such a number.
pub fn scroll_amount(message: &str) -> (amount: Option<i32>)
    ensures
        amount == scroll_amount_spec(message@),
{
    let m = chars_of(message);
    let pattern = chars_of("scroll");
    let nothing: Vec<char> = Vec::new();
    proof {
        reveal_strlit("scroll");
    }
    let rest = replace_chars(&m, &pattern, &nothing);
    parse_i32(&rest)
}

/// The action that a `mouse ...` message from the host `hostname`'s sender
/// asks for.
pub fn handle_mouse_command(msg: &str, hostname: &str) -> (action: MouseAction)
    ensures
        action@ == mouse_action_spec(msg@, hostname@),
{
    let m = chars_of(msg);
    let mut addressed = chars_of("mouse ");
    let host = chars_of(hostname);
    extend_chars(&mut addressed, &host);
    let everyone = chars_of("mouse all");
    let nothing: Vec<char> = Vec::new();
    proof {
        reveal_strlit("mouse ");
        reveal_strlit("mouse all");
    }
    let step = replace_chars(&m, &addressed, &nothing);
    let step = replace_chars(&step, &everyone, &nothing);
    let text = trim_chars(&step);
    if same_chars(&text, &chars_of("left click")) {
        MouseAction::LeftClick
    } else if same_chars(&text, &chars_of("right click")) {
        MouseAction::RightClick
    } else if same_chars(&text, &chars_of("middle click")) {
        MouseAction::MiddleClick
    } else if same_chars(&text, &chars_of("right click down")) {
        MouseAction::RightDown
    } else if same_chars(&text, &chars_of("right click up")) {
        MouseAction::RightUp
    } else if same_chars(&text, &chars_of("left click down")) {
        MouseAction::LeftDown
    } else if same_chars(&text, &chars_of("left click up")) {
        MouseAction::LeftUp
    } else if starts_with(&text, &chars_of("scroll")) {
        let t = string_of(&text);
        MouseAction::Scroll(scroll_amount(t.as_str()))
    } else {
        MouseAction::Unknown(string_of(&text))
    }
}

/// The offsets of a `mouse move ...` message from the host `host`'s sender:
/// its first two whitespace-separated words, or `BadFormat` when it has fewer.
pub fn handle_mouse_move(message: &str, host: &str) -> (request: MoveRequest)
    ensures
        request@ == move_request_spec(message@, host@),
{
    let m = chars_of(message);
    let mut addressed = chars_of("mouse move ");
    extend_chars(&mut addressed, &chars_of(host));
    extend_chars(&mut addressed, &chars_of(" "));
    let everyone = chars_of("mouse move all ");
    let nothing: Vec<char> = Vec::new();
    proof {
        reveal_strlit("mouse move ");
        reveal_strlit(" ");
        reveal_strlit("mouse move all ");
    }
    let step = replace_chars(&m, &addressed, &nothing);
    let offsets = replace_chars(&step, &everyone, &nothing);
    match word_at(&offsets, 0) {
        None => {
            assert(offsets@.skip(0) =~= offsets@);
            MoveRequest::BadFormat
        },
        Some((a, b)) => {
            assert(offsets@.skip(0) =~= offsets@);
            match word_at(&offsets, b) {
                None => MoveRequest::BadFormat,
                Some((c, d)) => {
                    let first = crate::text::slice_of(&offsets, a, b);
                    let second = crate::text::slice_of(&offsets, c, d);
                    MoveRequest::Offsets(string_of(&first), string_of(&second))
                },
            }
        },
    }
}


/// Press the right button.
pub fn mouse_right_down() -> (ops: Vec<DeviceOp>)
    ensures
        ops@ == seq![DeviceOp::Press(Button::Right)],
{
    let mut ops = Vec::new();
    ops.push(DeviceOp::Press(Button::Right));
    ops
}

/// Release the right button.
pub fn mouse_right_up() -> (ops: Vec<DeviceOp>)
    ensures
        ops@ == seq![DeviceOp::Release(Button::Right)],
{
    let mut ops = Vec::new();
    ops.push(DeviceOp::Release(Button::Right));
    ops
}

/// Press the left button.
pub fn mouse_left_down() -> (ops: Vec<DeviceOp>)
    ensures
        ops@ == seq![DeviceOp::Press(Button::Left)],
{
    let mut ops = Vec::new();
    ops.push(DeviceOp::Press(Button::Left));
    ops
}

/// Release the left button.
pub fn mouse_left_up() -> (ops: Vec<DeviceOp>)
    ensures
        ops@ == seq![DeviceOp::Release(Button::Left)],
{
    let mut ops = Vec::new();
    ops.push(DeviceOp::Release(Button::Left));
    ops
}

/// A left click: press, report, release, report.
pub fn mouse_left_click() -> (ops: Vec<DeviceOp>)
    ensures
        ops@ == seq![
            DeviceOp::Press(Button::Left),
            DeviceOp::Sync,
            DeviceOp::Release(Button::Left),
            DeviceOp::Sync,
        ],
{
    let mut ops = Vec::new();
    ops.push(DeviceOp::Press(Button::Left));
    ops.push(DeviceOp::Sync);
    ops.push(DeviceOp::Release(Button::Left));
    ops.push(DeviceOp::Sync);
    ops
}

/// A right click: press, report, release (the report that follows comes
/// from the caller's end-of-request synchronisation).
pub fn mouse_right_click() -> (ops: Vec<DeviceOp>)
    ensures
        ops@ == seq![
            DeviceOp::Press(Button::Right),
            DeviceOp::Sync,
            DeviceOp::Release(Button::Right),
        ],
{
    let mut ops = Vec::new();
    ops.push(DeviceOp::Press(Button::Right));
    ops.push(DeviceOp::Sync);
    ops.push(DeviceOp::Release(Button::Right));
    ops
}

/// A middle click: press, report, release.
pub fn mouse_middle_click() -> (ops: Vec<DeviceOp>)
    ensures
        ops@ == seq![
            DeviceOp::Press(Button::Middle),
            DeviceOp::Sync,
            DeviceOp::Release(Button::Middle),
        ],
{
    let mut ops = Vec::new();
    ops.push(DeviceOp::Press(Button::Middle));
    ops.push(DeviceOp::Sync);
    ops.push(DeviceOp::Release(Button::Middle));
    ops
}

/// The wheel turn of a scroll request: one vertical wheel step of the named
/// amount, or nothing when the text names no valid amount.
pub fn mouse_scroll(message: &str) -> (ops: Vec<DeviceOp>)
    ensures
        ops@ == match scroll_amount_spec(message@) {
            Some(dy) => seq![DeviceOp::Wheel(dy)],
            None => Seq::<DeviceOp>::empty(),
        },
{
    let mut ops = Vec::new();
    if let Some(dy) = scroll_amount(message) {
        ops.push(DeviceOp::Wheel(dy));
    }
    assert(ops@ =~= match scroll_amount_spec(message@) {
        Some(dy) => seq![DeviceOp::Wheel(dy)],
        None => Seq::<DeviceOp>::empty(),
    });
    ops
}

/// The pointer move for the scaled offsets `dx`, `dy`: nothing when both are
/// zero, else a horizontal then a vertical relative move.
pub fn mouse_move(dx: i32, dy: i32) -> (ops: Vec<DeviceOp>)
    ensures
        ops@ == if dx == 0 && dy == 0 {
            Seq::<DeviceOp>::empty()
        } else {
            seq![DeviceOp::MoveX(dx), DeviceOp::MoveY(dy)]
        },
{
    let mut ops = Vec::new();
    if dx == 0 && dy == 0 {
        assert(ops@ =~= Seq::<DeviceOp>::empty());
        return ops;
    }
    ops.push(DeviceOp::MoveX(dx));
    ops.push(DeviceOp::MoveY(dy));
    ops
}

/// The device operations that carry out `action`.
pub open spec fn action_ops(action: MouseActionSpec) -> Seq<DeviceOp> {
    match action {
        MouseActionSpec::LeftClick => seq![
            DeviceOp::Press(Button::Left),
            DeviceOp::Sync,
            DeviceOp::Release(Button::Left),
            DeviceOp::Sync,
        ],
        MouseActionSpec::RightClick => seq![
            DeviceOp::Press(Button::Right),
            DeviceOp::Sync,
            DeviceOp::Release(Button::Right),
        ],
        MouseActionSpec::MiddleClick => seq![
            DeviceOp::Press(Button::Middle),
            DeviceOp::Sync,
            DeviceOp::Release(Button::Middle),
        ],
        MouseActionSpec::RightDown => seq![DeviceOp::Press(Button::Right)],
        MouseActionSpec::RightUp => seq![DeviceOp::Release(Button::Right)],
        MouseActionSpec::LeftDown => seq![DeviceOp::Press(Button::Left)],
        MouseActionSpec::LeftUp => seq![DeviceOp::Release(Button::Left)],
        MouseActionSpec::Scroll(Some(dy)) => seq![DeviceOp::Wheel(dy)],
        MouseActionSpec::Scroll(None) => Seq::empty(),
        MouseActionSpec::Unknown(_) => Seq::empty(),
    }
}

/// The device operations that carry out `action`; an unknown request
/// carries none.
pub fn mouse_action_ops(action: &MouseAction) -> (ops: Vec<DeviceOp>)
    ensures
        ops@ == action_ops(action@),
        forall|dy: i32|
            action@ == MouseActionSpec::Scroll(Some(dy)) ==> ops@ == seq![DeviceOp::Wheel(dy)],
{
    match action {
        MouseAction::LeftClick => mouse_left_click(),
        MouseAction::RightClick => mouse_right_click(),
        MouseAction::MiddleClick => mouse_middle_click(),
        MouseAction::RightDown => mouse_right_down(),
        MouseAction::RightUp => mouse_right_up(),
        MouseAction::LeftDown => mouse_left_down(),
        MouseAction::LeftUp => mouse_left_up(),
        MouseAction::Scroll(amount) => {
            let mut ops = Vec::new();
            if let Some(dy) = amount {
                ops.push(DeviceOp::Wheel(*dy));
            }
            assert(ops@ =~= action_ops(action@));
            ops
        },
        MouseAction::Unknown(_) => {
            let ops = Vec::new();
            assert(ops@ =~= action_ops(action@));
            ops
        },
    }
}


/// A scroll action turns the wheel by exactly the amount asked for, sign
/// kept, and does nothing else; a scroll without a valid amount does
/// nothing.
pub proof fn law_scroll_ops(dy: i32)
    ensures
        action_ops(MouseActionSpec::Scroll(Some(dy))) == seq![DeviceOp::Wheel(dy)],
        action_ops(MouseActionSpec::Scroll(None)) == Seq::<DeviceOp>::empty(),
{
}

proof fn lemma_replace_absent(s: Seq<char>, p: Seq<char>, r: Seq<char>)
    requires
        p.len() > 1,
        forall|k: int| 0 <= k < s.len() && #[trigger] s[k] == p[0] ==> k + 1 < s.len() && s[k + 1] != p[1],
    ensures
        replace_all(s, p, r) == s,
    decreases s.len(),
{
    if s.len() >= p.len() {
        assert(!has_prefix(s, p)) by {
            if has_prefix(s, p) {
                assert(s.take(p.len() as int)[0] == s[0]);
                assert(s.take(p.len() as int)[1] == s[1]);
            }
        }
        assert forall|k: int|
            0 <= k < s.drop_first().len() && #[trigger] s.drop_first()[k] == p[0] implies k + 1
            < s.drop_first().len() && s.drop_first()[k + 1] != p[1] by {
            assert(s.drop_first()[k] == s[k + 1]);
        }
        lemma_replace_absent(s.drop_first(), p, r);
        assert(seq![s[0]] + s.drop_first() =~= s);
    }
}

/// `scroll` followed by the decimal numeral of any `i32` (with `-` when
/// negative, none otherwise) is read as exactly that amount.
pub proof fn law_scroll_amount_decimal(n: i32)
    ensures
        scroll_amount_spec("scroll"@ + signed_decimal(n as int)) == Some(n),
{
    reveal_strlit("scroll");
    let d = signed_decimal(n as int);
    let m = "scroll"@ + d;
    law_parse_decimal(n);
    if n < 0 {
        crate::text::law_decimal_digits((-(n as int)) as nat);
    } else {
        crate::text::law_decimal_digits(n as nat);
    }
    assert forall|k: int| 0 <= k < d.len() && #[trigger] d[k] == "scroll"@[0] implies k + 1
        < d.len() && d[k + 1] != "scroll"@[1] by {
        if n < 0 {
            if k > 0 {
                assert(d[k] == decimal((-(n as int)) as nat)[k - 1]);
                assert(crate::text::is_digit(decimal((-(n as int)) as nat)[k - 1]));
            }
        } else {
            assert(crate::text::is_digit(d[k]));
        }
    }
    lemma_replace_absent(d, "scroll"@, Seq::empty());
    assert(has_prefix(m, "scroll"@)) by {
        assert(m.take(6) =~= "scroll"@);
    }
    assert(m.skip(6) =~= d);
    assert(Seq::<char>::empty() + d =~= d);
}

/// A `mouse ...` request whose text (address removed, trimmed) begins with
/// `scroll` asks to scroll by the amount that text names, whatever else it
/// holds.
pub proof fn law_scroll_request(msg: Seq<char>, host: Seq<char>)
    requires
        has_prefix(mouse_request_text(msg, host), "scroll"@),
    ensures
        mouse_action_spec(msg, host) == MouseActionSpec::Scroll(
            scroll_amount_spec(mouse_request_text(msg, host)),
        ),
{
    reveal_strlit("scroll");
    reveal_strlit("left click");
    reveal_strlit("right click");
    reveal_strlit("middle click");
    reveal_strlit("right click down");
    reveal_strlit("right click up");
    reveal_strlit("left click down");
    reveal_strlit("left click up");
    let m = mouse_request_text(msg, host);
    assert(m.take(6)[0] == m[0]);
    assert(m[0] == 's');
}


/// How a button request addressed to this host by name is read: `mouse
/// <host> ` followed by one of the button phrases gives that button action,
/// for every host name.
pub proof fn law_button_requests(host: Seq<char>)
    ensures
        mouse_action_spec("mouse "@ + host + " "@ + "left click"@, host) == MouseActionSpec::LeftClick,
        mouse_action_spec("mouse "@ + host + " "@ + "right click"@, host)
            == MouseActionSpec::RightClick,
        mouse_action_spec("mouse "@ + host + " "@ + "middle click"@, host)
            == MouseActionSpec::MiddleClick,
        mouse_action_spec("mouse "@ + host + " "@ + "right click down"@, host)
            == MouseActionSpec::RightDown,
        mouse_action_spec("mouse "@ + host + " "@ + "right click up"@, host)
            == MouseActionSpec::RightUp,
        mouse_action_spec("mouse "@ + host + " "@ + "left click down"@, host)
            == MouseActionSpec::LeftDown,
        mouse_action_spec("mouse "@ + host + " "@ + "left click up"@, host) == MouseActionSpec::LeftUp,
{
    reveal_strlit("left click");
    reveal_strlit("right click");
    reveal_strlit("middle click");
    reveal_strlit("right click down");
    reveal_strlit("right click up");
    reveal_strlit("left click down");
    reveal_strlit("left click up");
    lemma_button_phrase(host, "left click"@);
    lemma_button_phrase(host, "right click"@);
    lemma_button_phrase(host, "middle click"@);
    lemma_button_phrase(host, "right click down"@);
    lemma_button_phrase(host, "right click up"@);
    lemma_button_phrase(host, "left click down"@);
    lemma_button_phrase(host, "left click up"@);
}

proof fn lemma_button_phrase(host: Seq<char>, phrase: Seq<char>)
    requires
        phrase == "left click"@ || phrase == "right click"@ || phrase == "middle click"@ || phrase
            == "right click down"@ || phrase == "right click up"@ || phrase == "left click down"@
            || phrase == "left click up"@,
    ensures
        mouse_request_text("mouse "@ + host + " "@ + phrase, host) == phrase,
{
    reveal_strlit("mouse ");
    reveal_strlit(" ");
    reveal_strlit("mouse all");
    reveal_strlit("left click");
    reveal_strlit("right click");
    reveal_strlit("middle click");
    reveal_strlit("right click down");
    reveal_strlit("right click up");
    reveal_strlit("left click down");
    reveal_strlit("left click up");
    let p = "mouse "@ + host;
    let msg = p + " "@ + phrase;
    let tail = " "@ + phrase;
    assert(msg.take(p.len() as int) =~= p);
    assert(msg.skip(p.len() as int) =~= tail);
    assert(p[0] == 'm' && p[1] == 'o');
    assert forall|k: int| 0 <= k < tail.len() && #[trigger] tail[k] == 'm' implies k + 1 < tail.len()
        && tail[k + 1] != 'o' by {
        assert(tail[k] == phrase[k - 1]);
        assert(tail[k + 1] == phrase[k]);
    }
    lemma_replace_absent(tail, p, Seq::empty());
    assert(replace_all(msg, p, Seq::empty()) == Seq::<char>::empty() + tail);
    assert(Seq::<char>::empty() + tail =~= tail);
    lemma_replace_absent(tail, "mouse all"@, Seq::empty());
    assert(tail.drop_first() =~= phrase);
    assert(!crate::text::is_space(phrase[0]));
    assert(crate::text::is_space(tail[0]));
    assert(crate::text::trim_start(phrase) == phrase);
    assert(crate::text::trim_start(tail) == phrase);
    assert(crate::text::trim_end(phrase) == phrase) by {
        assert(!crate::text::is_space(phrase.last()));
    }
}


/// A pointer move addressed to this host by name, `mouse move <host> <x>
/// <y>` with two words `x` and `y`, carries exactly those two words as its
/// offsets, in that order.
pub proof fn law_move_request(host: Seq<char>, x: Seq<char>, y: Seq<char>)
    requires
        x.len() > 0,
        y.len() > 0,
        forall|k: int| 0 <= k < x.len() ==> !crate::text::is_space(#[trigger] x[k]),
        forall|k: int| 0 <= k < y.len() ==> !crate::text::is_space(#[trigger] y[k]),
    ensures
        move_request_spec("mouse move "@ + host + " "@ + x + " "@ + y, host)
            == MoveRequestSpec::Offsets(x, y),
{
    reveal_strlit("mouse move ");
    reveal_strlit(" ");
    reveal_strlit("mouse move all ");
    let p1 = "mouse move "@ + host + " "@;
    let p2 = "mouse move all "@;
    let msg = "mouse move "@ + host + " "@ + x + " "@ + y;
    let rest = x + " "@ + y;
    assert(msg =~= p1 + rest);
    assert(msg.take(p1.len() as int) =~= p1);
    assert(msg.skip(p1.len() as int) =~= rest);
    assert forall|a: int, b: int|
        0 <= a < rest.len() && 0 <= b < rest.len() && #[trigger] rest[a] == ' ' && #[trigger] rest[b]
            == ' ' implies a == b by {
        if a < x.len() {
            assert(rest[a] == x[a]);
        } else if a > x.len() {
            assert(rest[a] == y[a - x.len() - 1]);
        }
        if b < x.len() {
            assert(rest[b] == x[b]);
        } else if b > x.len() {
            assert(rest[b] == y[b - x.len() - 1]);
        }
    }
    crate::text::lemma_two_spaces_absent(rest, p1, 5, 10);
    crate::text::law_replace_absent(rest, p1, Seq::empty());
    assert(replace_all(msg, p1, Seq::empty()) == Seq::<char>::empty() + rest);
    assert(Seq::<char>::empty() + rest =~= rest);
    crate::text::lemma_two_spaces_absent(rest, p2, 5, 10);
    crate::text::law_replace_absent(rest, p2, Seq::empty());
    assert(move_request_text(msg, host) == rest);
    crate::text::law_two_words(x, y);
}


/// When `lit + rest` begins with `lit + p`, `rest` begins with `p`.
pub proof fn lemma_drop_prefix(lit: Seq<char>, rest: Seq<char>, p: Seq<char>)
    requires
        has_prefix(lit + rest, lit + p),
    ensures
        has_prefix(rest, p),
{
    let s = lit + rest;
    let q = lit + p;
    assert(s.take(q.len() as int) == q);
    assert forall|k: int| 0 <= k < p.len() implies rest[k] == p[k] by {
        assert(s.take(q.len() as int)[lit.len() + k] == s[lit.len() + k]);
        assert(q[lit.len() + k] == p[k]);
    }
    assert(rest.take(p.len() as int) =~= p);
}

} // verus!
