//! The state of a virtual mouse built on an event device: small pointer
//! moves are held back and added to the next large one, and the events that
//! each request emits.
use vstd::prelude::*;

verus! {

/// A relative axis of the virtual mouse.
#[derive(Clone, Copy, Debug, PartialEq, Eq, Structural)]
pub enum RelAxis {
    X,
    Y,
    /// The vertical wheel, which the device enables for scrolling.
    Wheel,
}

/// One input event of the virtual mouse: a relative axis change, a key
/// (button) state given by its key code, or the end-of-report marker.
#[derive(Clone, Copy, Debug, PartialEq, Eq, Structural)]
pub enum VirtualEvent {
    Relative(RelAxis, i32),
    Key(u16, i32),
    SynReport,
}

/// What a pointer move asks of the device.
#[derive(Clone, Copy, Debug, PartialEq, Eq, Structural)]
pub enum Motion {
    /// The move was too small to send; it is held until a larger one.
    Absorbed,
    /// Send a horizontal and then a vertical relative move of these sizes.
    Emit(i32, i32),
}

/// The pointer motion that a virtual mouse holds back.
pub struct VirtualMouse {
    acummulated_position: (i32, i32),
}

/// Whether a move by `x`, `y` is small enough to be held back: both
/// components have magnitude below 2.
pub open spec fn is_small_move(x: int, y: int) -> bool {
    -2 < x < 2 && -2 < y < 2
}

/// What a call of [`VirtualMouse::move_mouse`] does from held-back motion
/// `held`: a small move is added to it and nothing is sent (`after` is the
/// sum); any other move asks to send the held-back motion plus the move, and
/// the held-back motion stays as it was (`after == held`) until the send is
/// reported.
pub open spec fn move_outcome(
    held: (i32, i32),
    x: i32,
    y: i32,
    motion: Motion,
    after: (i32, i32),
) -> bool {
    if is_small_move(x as int, y as int) {
        &&& motion == Motion::Absorbed
        &&& after.0 == held.0 + x
        &&& after.1 == held.1 + y
    } else {
        &&& motion == Motion::Emit((held.0 + x) as i32, (held.1 + y) as i32)
        &&& after == held
    }
}

/// Whether a move by (`x`, `y`) from held-back motion `held` is computed
/// without overflow: the magnitudes of the components are taken (the one
/// of `y` only when that of `x` is below 2), and held-back and new motion
/// add up within `i32`.
pub open spec fn move_fits(held: (i32, i32), x: i32, y: i32) -> bool {
    &&& x != i32::MIN
    &&& (-2 < x < 2 ==> y != i32::MIN)
    &&& i32::MIN <= held.0 + x <= i32::MAX
    &&& i32::MIN <= held.1 + y <= i32::MAX
}

impl View for VirtualMouse {
    type V = (i32, i32);

    closed spec fn view(&self) -> (i32, i32) {
        self.acummulated_position
    }
}

impl VirtualMouse {
    /// A virtual mouse that holds back no motion.
    pub fn new() -> (m: VirtualMouse)
        ensures
            m@ == (0i32, 0i32),
    {
        VirtualMouse { acummulated_position: (0, 0) }
    }

    /// The motion held back so far.
    pub fn accumulated(&self) -> (held: (i32, i32))
        ensures
            held == self@,
    {
        self.acummulated_position
    }

    /// The end-of-report event.
    pub fn flush() -> (e: VirtualEvent)
        ensures
            e == VirtualEvent::SynReport,
    {
        VirtualEvent::SynReport
    }

    /// A pointer move by (`x`, `y`). A small move is added to the held-back
    /// motion and nothing is sent. Any other move asks to send the held-back
    /// motion plus this one; the held-back motion stays until
    /// [`VirtualMouse::motion_sent`] reports that the send succeeded.
    pub fn move_mouse(&mut self, x: i32, y: i32) -> (motion: Motion)
        requires
            move_fits(old(self)@, x, y),
        ensures
            move_outcome(old(self)@, x, y, motion, final(self)@),
    {
        if -2 < x && x < 2 && -2 < y && y < 2 {
            self.acummulated_position = (
                self.acummulated_position.0 + x,
                self.acummulated_position.1 + y,
            );
            return Motion::Absorbed;
        }
        if self.acummulated_position.0 != 0 || self.acummulated_position.1 != 0 {
            return Motion::Emit(self.acummulated_position.0 + x, self.acummulated_position.1 + y);
        }
        Motion::Emit(x, y)
    }

    /// Reports that the motion asked for by the last move was sent: nothing
    /// is held back any more.
    pub fn motion_sent(&mut self)
        ensures
            final(self)@ == (0i32, 0i32),
    {
        self.acummulated_position = (0, 0);
    }

    /// The events that send a relative move of (`dx`, `dy`).
    pub fn motion_events(dx: i32, dy: i32) -> (events: Vec<VirtualEvent>)
        ensures
            events@ == seq![
                VirtualEvent::Relative(RelAxis::X, dx),
                VirtualEvent::Relative(RelAxis::Y, dy),
            ],
    {
        let mut events = Vec::new();
        events.push(VirtualEvent::Relative(RelAxis::X, dx));
        events.push(VirtualEvent::Relative(RelAxis::Y, dy));
        events
    }

    /// The events that press the button with key code `button`.
    pub fn button_down(button: u16) -> (events: Vec<VirtualEvent>)
        ensures
            events@ == seq![VirtualEvent::Key(button, 1), VirtualEvent::SynReport],
    {
        let mut events = Vec::new();
        events.push(VirtualEvent::Key(button, 1));
        events.push(Self::flush());
        events
    }

    /// The events that release the button with key code `button`.
    pub fn button_up(button: u16) -> (events: Vec<VirtualEvent>)
        ensures
            events@ == seq![VirtualEvent::Key(button, 0), VirtualEvent::SynReport],
    {
        let mut events = Vec::new();
        events.push(VirtualEvent::Key(button, 0));
        events.push(Self::flush());
        events
    }

    /// The events that scroll by `amount` (positive up, negative down): the
    /// vertical wheel, the axis the device enables for scrolling, turns by
    /// twice the amount.
    pub fn scroll(amount: i32) -> (events: Vec<VirtualEvent>)
        requires
            i32::MIN <= 2 * amount <= i32::MAX,
        ensures
            events@ == seq![
                VirtualEvent::Relative(RelAxis::Wheel, (2 * amount) as i32),
                VirtualEvent::SynReport,
            ],
    {
        let mut events = Vec::new();
        events.push(VirtualEvent::Relative(RelAxis::Wheel, amount * 2));
        events.push(Self::flush());
        events
    }
}

/// The sum of the moves `moves`.
pub open spec fn total_motion(moves: Seq<(i32, i32)>) -> (int, int)
    decreases moves.len(),
{
    if moves.len() == 0 {
        (0, 0)
    } else {
        let rest = total_motion(moves.drop_last());
        (rest.0 + moves.last().0, rest.1 + moves.last().1)
    }
}

/// The sum of the motion that the answers `motions` ask to send.
pub open spec fn sent_motion(motions: Seq<Motion>) -> (int, int)
    decreases motions.len(),
{
    if motions.len() == 0 {
        (0, 0)
    } else {
        let rest = sent_motion(motions.drop_last());
        match motions.last() {
            Motion::Emit(dx, dy) => (rest.0 + dx, rest.1 + dy),
            Motion::Absorbed => rest,
        }
    }
}

/// One request to the virtual mouse, as the app carries it out: a call of
/// [`VirtualMouse::move_mouse`] from `held` (answering `motion` and leaving
/// `after`), then, when it asked to send and the send succeeded, a call of
/// [`VirtualMouse::motion_sent`], which leaves `next`.
pub open spec fn request_step(
    held: (i32, i32),
    x: i32,
    y: i32,
    motion: Motion,
    after: (i32, i32),
    next: (i32, i32),
) -> bool {
    &&& move_fits(held, x, y)
    &&& move_outcome(held, x, y, motion, after)
    &&& next == (if motion is Emit {
        (0i32, 0i32)
    } else {
        after
    })
}

/// No motion is lost or sent twice. Take successive requests `moves`, with
/// `held[i]` the held-back motion before request `i`, `motions[i]` and
/// `after[i]` what `move_mouse` answered and left, and `held[i + 1]` what is
/// held once any asked-for send has succeeded. Then what is still held plus
/// all that was sent equals what was held at the start plus all the moves;
/// and when the last move is not small nothing is held at the end, so all
/// the motion was sent.
pub proof fn law_motion_conserved(
    held: Seq<(i32, i32)>,
    moves: Seq<(i32, i32)>,
    motions: Seq<Motion>,
    after: Seq<(i32, i32)>,
)
    requires
        held.len() == moves.len() + 1,
        motions.len() == moves.len(),
        after.len() == moves.len(),
        forall|i: int|
            0 <= i < moves.len() ==> #[trigger] request_step(
                held[i],
                moves[i].0,
                moves[i].1,
                motions[i],
                after[i],
                held[i + 1],
            ),
    ensures
        held.last().0 + sent_motion(motions).0 == held[0].0 + total_motion(moves).0,
        held.last().1 + sent_motion(motions).1 == held[0].1 + total_motion(moves).1,
        moves.len() > 0 && !is_small_move(moves.last().0 as int, moves.last().1 as int) ==> held.last()
            == (0i32, 0i32),
    decreases moves.len(),
{
    let n = moves.len() as int;
    if n > 0 {
        let k = n - 1;
        assert(request_step(held[k], moves[k].0, moves[k].1, motions[k], after[k], held[k + 1]));
        assert forall|i: int| 0 <= i < k implies #[trigger] request_step(
            held.drop_last()[i],
            moves.drop_last()[i].0,
            moves.drop_last()[i].1,
            motions.drop_last()[i],
            after.drop_last()[i],
            held.drop_last()[i + 1],
        ) by {
            assert(request_step(held[i], moves[i].0, moves[i].1, motions[i], after[i], held[i + 1]));
        }
        law_motion_conserved(held.drop_last(), moves.drop_last(), motions.drop_last(), after.drop_last());
        assert(held.drop_last().last() == held[k]);
    }
}

/// Which moves are held back and which are sent: a move whose two
/// components both lie in -1..=1 is held; a move with a component of 2 or
/// more in magnitude asks to send.
pub proof fn law_hold_threshold(held: (i32, i32), x: i32, y: i32, motion: Motion, after: (i32, i32))
    requires
        move_outcome(held, x, y, motion, after),
    ensures
        (-1 <= x <= 1 && -1 <= y <= 1) ==> motion == Motion::Absorbed,
        (x >= 2 || x <= -2 || y >= 2 || y <= -2) ==> motion is Emit,
{
}

/// Small moves are only ever held: when every move of a sequence of
/// requests is small, nothing is asked to be sent.
pub proof fn law_small_moves_held(
    held: Seq<(i32, i32)>,
    moves: Seq<(i32, i32)>,
    motions: Seq<Motion>,
    after: Seq<(i32, i32)>,
)
    requires
        held.len() == moves.len() + 1,
        motions.len() == moves.len(),
        after.len() == moves.len(),
        forall|i: int|
            0 <= i < moves.len() ==> #[trigger] request_step(
                held[i],
                moves[i].0,
                moves[i].1,
                motions[i],
                after[i],
                held[i + 1],
            ),
        forall|i: int|
            0 <= i < moves.len() ==> is_small_move(#[trigger] moves[i].0 as int, moves[i].1 as int),
    ensures
        forall|i: int| 0 <= i < motions.len() ==> #[trigger] motions[i] == Motion::Absorbed,
{
    assert forall|i: int| 0 <= i < motions.len() implies #[trigger] motions[i] == Motion::Absorbed by {
        assert(request_step(held[i], moves[i].0, moves[i].1, motions[i], after[i], held[i + 1]));
        assert(is_small_move(moves[i].0 as int, moves[i].1 as int));
    }
}

} // verus!
