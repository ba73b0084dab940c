use vstd::prelude::*;

verus! {

/// The key that a keyboard event reports, as far as the bindings tell keys apart.
#[derive(Clone, Copy, Debug, PartialEq, Eq, Structural)]
pub enum KeyCode {
    Char(char),
    Up,
    Down,
    Left,
    Right,
    Esc,
    /// Any other key.
    Other,
}

/// Whether a key went down, auto-repeated, or came up.
#[derive(Clone, Copy, Debug, PartialEq, Eq, Structural)]
pub enum KeyEventKind {
    Press,
    Repeat,
    Release,
}

/// A keyboard event. `modifiers` holds the bits of the terminal's modifier set.
#[derive(Clone, Copy, Debug, PartialEq, Eq, Structural)]
pub struct KeyEvent {
    pub code: KeyCode,
    pub modifiers: u8,
    pub kind: KeyEventKind,
}

impl KeyEvent {
    /// A key press with the given modifiers.
    pub fn new(code: KeyCode, modifiers: u8) -> (event: Self)
        ensures
            event == (KeyEvent { code, modifiers, kind: KeyEventKind::Press }),
    {
        KeyEvent { code, modifiers, kind: KeyEventKind::Press }
    }
}

/// Whether the modifier set holds Control: its bit of weight 2.
pub open spec fn control_held(modifiers: u8) -> bool {
    (modifiers / 2) % 2 == 1
}

/// `crossterm::event::KeyModifiers::contains(KeyModifiers::CONTROL)` on the set
/// made from `modifiers` by `from_bits_truncate`. In crossterm's source CONTROL is
/// the bit `0b10`, truncation keeps the defined bits and `contains` tests
/// `bits & other == other`, so the call tests that bit.
#[verifier::external_body]
fn modifiers_contain_control(modifiers: u8) -> (held: bool)
    ensures
        held == control_held(modifiers),
{
    crossterm::event::KeyModifiers::from_bits_truncate(modifiers).contains(
        crossterm::event::KeyModifiers::CONTROL,
    )
}

/// Whether `key` asks to quit: Esc, `q`/`Q`, or Ctrl+`c`/`C`.
pub open spec fn is_quit_key(key: KeyEvent) -> bool {
    ||| key.code == KeyCode::Esc
    ||| key.code == KeyCode::Char('q')
    ||| key.code == KeyCode::Char('Q')
    ||| control_held(key.modifiers) && (key.code == KeyCode::Char('c') || key.code
        == KeyCode::Char('C'))
}

/// Returns whether `key` asks to quit.
pub fn is_quit(key: &KeyEvent) -> (quit: bool)
    ensures
        quit == is_quit_key(*key),
        quit <==> (key.code == KeyCode::Esc || key.code == KeyCode::Char('q') || key.code
            == KeyCode::Char('Q') || (key.code == KeyCode::Char('c') || key.code == KeyCode::Char(
            'C',
        )) && control_held(key.modifiers)),
        binding_of(key.code) is Some ==> !quit,
{
    let plain = match key.code {
        KeyCode::Esc => true,
        KeyCode::Char(c) => c == 'q' || c == 'Q',
        _ => false,
    };
    plain || (modifiers_contain_control(key.modifiers) && match key.code {
        KeyCode::Char(c) => c == 'c' || c == 'C',
        _ => false,
    })
}

/// Which movement buttons are down.
#[derive(Clone, Copy, Debug, PartialEq, Eq, Structural)]
pub struct Buttons {
    pub forward: bool,
    pub back: bool,
    pub strafe_left: bool,
    pub strafe_right: bool,
    pub turn_left: bool,
    pub turn_right: bool,
}

impl Buttons {
    /// No button down.
    pub open spec fn released() -> Buttons {
        Buttons {
            forward: false,
            back: false,
            strafe_left: false,
            strafe_right: false,
            turn_left: false,
            turn_right: false,
        }
    }
}

impl Default for Buttons {
    fn default() -> (buttons: Self)
        ensures
            buttons == Buttons::released(),
    {
        Buttons {
            forward: false,
            back: false,
            strafe_left: false,
            strafe_right: false,
            turn_left: false,
            turn_right: false,
        }
    }
}

/// The action a key is bound to.
#[derive(Clone, Copy, Debug, PartialEq, Eq, Structural)]
pub enum Binding {
    Forward,
    Back,
    StrafeLeft,
    StrafeRight,
    TurnLeft,
    TurnRight,
}

impl Binding {
    /// The state of this binding's button in `buttons`.
    pub open spec fn get(self, buttons: Buttons) -> bool {
        match self {
            Binding::Forward => buttons.forward,
            Binding::Back => buttons.back,
            Binding::StrafeLeft => buttons.strafe_left,
            Binding::StrafeRight => buttons.strafe_right,
            Binding::TurnLeft => buttons.turn_left,
            Binding::TurnRight => buttons.turn_right,
        }
    }

    /// `buttons` with this binding's button set to `down`.
    pub open spec fn set(self, buttons: Buttons, down: bool) -> Buttons {
        match self {
            Binding::Forward => Buttons { forward: down, ..buttons },
            Binding::Back => Buttons { back: down, ..buttons },
            Binding::StrafeLeft => Buttons { strafe_left: down, ..buttons },
            Binding::StrafeRight => Buttons { strafe_right: down, ..buttons },
            Binding::TurnLeft => Buttons { turn_left: down, ..buttons },
            Binding::TurnRight => Buttons { turn_right: down, ..buttons },
        }
    }

    /// The flag of this binding's button inside `buttons`.
    pub fn field(self, buttons: &mut Buttons) -> (flag: &mut bool)
        ensures
            *flag == self.get(*old(buttons)),
            *final(buttons) == self.set(*old(buttons), *final(flag)),
    {
        match self {
            Binding::Forward => &mut buttons.forward,
            Binding::Back => &mut buttons.back,
            Binding::StrafeLeft => &mut buttons.strafe_left,
            Binding::StrafeRight => &mut buttons.strafe_right,
            Binding::TurnLeft => &mut buttons.turn_left,
            Binding::TurnRight => &mut buttons.turn_right,
        }
    }
}

/// The binding of a key: W/Up, S/Down, A, D, Left and Right; nothing for the rest.
pub open spec fn binding_of(code: KeyCode) -> Option<Binding> {
    match code {
        KeyCode::Char(c) => if c == 'w' || c == 'W' {
            Some(Binding::Forward)
        } else if c == 's' || c == 'S' {
            Some(Binding::Back)
        } else if c == 'a' || c == 'A' {
            Some(Binding::StrafeLeft)
        } else if c == 'd' || c == 'D' {
            Some(Binding::StrafeRight)
        } else {
            None
        },
        KeyCode::Up => Some(Binding::Forward),
        KeyCode::Down => Some(Binding::Back),
        KeyCode::Left => Some(Binding::TurnLeft),
        KeyCode::Right => Some(Binding::TurnRight),
        _ => None,
    }
}

/// Looks up the binding of a key.
pub fn binding(code: KeyCode) -> (bound: Option<Binding>)
    ensures
        bound == binding_of(code),
        bound == Some(Binding::Forward) <==> (code == KeyCode::Char('w') || code == KeyCode::Char('W')
            || code == KeyCode::Up),
        bound == Some(Binding::Back) <==> (code == KeyCode::Char('s') || code == KeyCode::Char('S')
            || code == KeyCode::Down),
        bound == Some(Binding::StrafeLeft) <==> (code == KeyCode::Char('a') || code == KeyCode::Char(
            'A',
        )),
        bound == Some(Binding::StrafeRight) <==> (code == KeyCode::Char('d') || code
            == KeyCode::Char('D')),
        bound == Some(Binding::TurnLeft) <==> code == KeyCode::Left,
        bound == Some(Binding::TurnRight) <==> code == KeyCode::Right,
{
    match code {
        KeyCode::Char(c) => {
            if c == 'w' || c == 'W' {
                Some(Binding::Forward)
            } else if c == 's' || c == 'S' {
                Some(Binding::Back)
            } else if c == 'a' || c == 'A' {
                Some(Binding::StrafeLeft)
            } else if c == 'd' || c == 'D' {
                Some(Binding::StrafeRight)
            } else {
                None
            }
        },
        KeyCode::Up => Some(Binding::Forward),
        KeyCode::Down => Some(Binding::Back),
        KeyCode::Left => Some(Binding::TurnLeft),
        KeyCode::Right => Some(Binding::TurnRight),
        _ => None,
    }
}

/// What an [`Input`] holds: the buttons held down between press and release,
/// the buttons pressed or repeated during the current frame, and whether the
/// terminal has been seen to report releases.
pub struct InputView {
    pub held: Buttons,
    pub frame: Buttons,
    pub use_held: bool,
}

impl InputView {
    /// The buttons that count as active: the held ones once releases are
    /// reported, the ones of this frame before.
    pub open spec fn active(self) -> Buttons {
        if self.use_held {
            self.held
        } else {
            self.frame
        }
    }

    /// The state at the start of a frame: this frame's buttons are cleared.
    pub open spec fn begin_frame(self) -> InputView {
        InputView { frame: Buttons::released(), ..self }
    }

    /// The state after a key event that does not quit.
    pub open spec fn after_key(self, key: KeyEvent) -> InputView {
        match binding_of(key.code) {
            None => self,
            Some(b) => match key.kind {
                KeyEventKind::Release => InputView {
                    use_held: true,
                    held: b.set(self.held, false),
                    ..self
                },
                KeyEventKind::Press => InputView {
                    held: b.set(self.held, true),
                    frame: b.set(self.frame, true),
                    ..self
                },
                KeyEventKind::Repeat => InputView { frame: b.set(self.frame, true), ..self },
            },
        }
    }
}

/// Keyboard state for the current frame.
///
/// Uses press/release tracking once the terminal reports `Release` events.
/// Until then it treats each `Press`/`Repeat` as active for that frame only,
/// so keys do not stick on terminals that never send releases.
#[derive(Debug)]
pub struct Input {
    held: Buttons,
    frame: Buttons,
    use_held: bool,
}

impl View for Input {
    type V = InputView;

    closed spec fn view(&self) -> InputView {
        InputView { held: self.held, frame: self.frame, use_held: self.use_held }
    }
}

impl Default for Input {
    fn default() -> (input: Self)
        ensures
            input@ == (InputView {
                held: Buttons::released(),
                frame: Buttons::released(),
                use_held: false,
            }),
    {
        Input { held: Buttons::default(), frame: Buttons::default(), use_held: false }
    }
}

impl Input {
    /// No button down, and releases not yet seen.
    pub fn new() -> (input: Self)
        ensures
            input@ == (InputView {
                held: Buttons::released(),
                frame: Buttons::released(),
                use_held: false,
            }),
    {
        Self::default()
    }

    /// Starts a frame: forgets the buttons pressed during the last one.
    pub fn begin_frame(&mut self)
        ensures
            final(self)@ == old(self)@.begin_frame(),
    {
        self.frame = Buttons::default();
    }

    /// Returns `true` when the user asked to quit.
    pub fn handle_key(&mut self, key: KeyEvent) -> (quit: bool)
        ensures
            quit == (is_quit_key(key) && key.kind != KeyEventKind::Release),
            binding_of(key.code) is Some ==> !quit,
            quit ==> final(self)@ == old(self)@,
            !quit ==> final(self)@ == old(self)@.after_key(key),
    {
        if is_quit(&key) && key.kind != KeyEventKind::Release {
            return true;
        }
        let slot = match binding(key.code) {
            Some(slot) => slot,
            None => {
                return false;
            },
        };
        match key.kind {
            KeyEventKind::Release => {
                self.use_held = true;
                *slot.field(&mut self.held) = false;
            },
            KeyEventKind::Press => {
                *slot.field(&mut self.held) = true;
                *slot.field(&mut self.frame) = true;
            },
            KeyEventKind::Repeat => {
                *slot.field(&mut self.frame) = true;
            },
        }
        false
    }

    fn buttons(&self) -> (buttons: Buttons)
        ensures
            buttons == self@.active(),
    {
        if self.use_held {
            self.held
        } else {
            self.frame
        }
    }

    pub fn forward(&self) -> (down: bool)
        ensures
            down == self@.active().forward,
    {
        self.buttons().forward
    }

    pub fn back(&self) -> (down: bool)
        ensures
            down == self@.active().back,
    {
        self.buttons().back
    }

    pub fn strafe_left(&self) -> (down: bool)
        ensures
            down == self@.active().strafe_left,
    {
        self.buttons().strafe_left
    }

    pub fn strafe_right(&self) -> (down: bool)
        ensures
            down == self@.active().strafe_right,
    {
        self.buttons().strafe_right
    }

    /// `-1` left, `+1` right, `0` if both or neither.
    pub fn turn(&self) -> (dir: i8)
        ensures
            dir == (if self@.active().turn_right { 1int } else { 0int }) - (if self@.active().turn_left {
                1int
            } else {
                0int
            }),
    {
        let buttons = self.buttons();
        let right: i8 = if buttons.turn_right { 1 } else { 0 };
        let left: i8 = if buttons.turn_left { 1 } else { 0 };
        right - left
    }
}


/// Once the terminal has been seen to report a release, press/release tracking
/// stays on: neither a key event nor a new frame turns it off, and a release of
/// a bound key turns it on.
pub proof fn lemma_release_tracking_is_sticky(s: InputView, key: KeyEvent)
    ensures
        s.use_held ==> s.after_key(key).use_held,
        s.use_held ==> s.begin_frame().use_held,
        binding_of(key.code) is Some && key.kind == KeyEventKind::Release ==> s.after_key(
            key,
        ).use_held,
{
}

/// Before any release has been seen, a key counts for the frame in which it was
/// pressed or repeated only: at the start of the next frame no button is active.
pub proof fn lemma_presses_last_one_frame_without_releases(s: InputView)
    requires
        !s.use_held,
    ensures
        s.begin_frame().active() == Buttons::released(),
{
}

/// Once releases are reported, a new frame changes no active button: a key
/// stays active from its press until its release.
pub proof fn lemma_held_keys_outlast_frames(s: InputView)
    requires
        s.use_held,
    ensures
        s.begin_frame().active() == s.active(),
{
}

/// A press of a bound key makes its button active, whichever tracking is on; a
/// release of it makes its button inactive.
pub proof fn lemma_press_and_release(s: InputView, key: KeyEvent, b: Binding)
    requires
        binding_of(key.code) == Some(b),
    ensures
        key.kind == KeyEventKind::Press ==> b.get(s.after_key(key).active()),
        key.kind == KeyEventKind::Release ==> !b.get(s.after_key(key).active()),
{
}

/// A key event touches the button of its own binding only: every other button
/// keeps its held and per-frame state.
pub proof fn lemma_other_buttons_untouched(s: InputView, key: KeyEvent, b: Binding, other: Binding)
    requires
        binding_of(key.code) == Some(b),
        other != b,
    ensures
        other.get(s.after_key(key).held) == other.get(s.held),
        other.get(s.after_key(key).frame) == other.get(s.frame),
{
}

/// The quit keys are exactly Esc, `q`, `Q`, and `c` or `C` with Control held.
pub proof fn lemma_quit_keys(key: KeyEvent)
    ensures
        is_quit_key(key) <==> (key.code == KeyCode::Esc || key.code == KeyCode::Char('q')
            || key.code == KeyCode::Char('Q') || (key.code == KeyCode::Char('c') || key.code
            == KeyCode::Char('C')) && control_held(key.modifiers)),
{
}

/// No key that moves or turns the player quits, whatever its modifiers.
pub proof fn lemma_movement_keys_never_quit(key: KeyEvent)
    requires
        binding_of(key.code) is Some,
    ensures
        !is_quit_key(key),
{
}

/// Which keys drive which button: W/Up forward, S/Down back, A strafe left,
/// D strafe right, Left and Right turn; every other key drives none.
pub proof fn lemma_binding_table(code: KeyCode)
    ensures
        binding_of(code) == Some(Binding::Forward) <==> (code == KeyCode::Char('w') || code
            == KeyCode::Char('W') || code == KeyCode::Up),
        binding_of(code) == Some(Binding::Back) <==> (code == KeyCode::Char('s') || code
            == KeyCode::Char('S') || code == KeyCode::Down),
        binding_of(code) == Some(Binding::StrafeLeft) <==> (code == KeyCode::Char('a') || code
            == KeyCode::Char('A')),
        binding_of(code) == Some(Binding::StrafeRight) <==> (code == KeyCode::Char('d') || code
            == KeyCode::Char('D')),
        binding_of(code) == Some(Binding::TurnLeft) <==> code == KeyCode::Left,
        binding_of(code) == Some(Binding::TurnRight) <==> code == KeyCode::Right,
{
}

/// The upper-case form of an ASCII lower-case letter.
pub open spec fn ascii_upper(c: char) -> char {
    ((c as int) - 32) as char
}

/// Letter bindings ignore case: a lower-case letter and its capital are bound
/// to the same button, or both to none.
pub proof fn lemma_bindings_ignore_case(c: char)
    requires
        'a' <= c <= 'z',
    ensures
        binding_of(KeyCode::Char(c)) == binding_of(KeyCode::Char(ascii_upper(c))),
{
}

} // verus!
