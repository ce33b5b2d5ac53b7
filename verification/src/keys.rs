//! Keys, chords and the keymap.

use vstd::prelude::*;

verus! {

/// A key, as the terminal reports it.
#[derive(Debug, Clone, Copy, PartialEq, Eq, Structural)]
pub enum KeyCode {
    Char(char),
    Enter,
    Esc,
    Backspace,
    Delete,
    Insert,
    Left,
    Right,
    Up,
    Down,
    Home,
    End,
    PageUp,
    PageDown,
    Tab,
    BackTab,
    F(u8),
    /// A key nothing here answers to.
    Other,
}

/// The modifiers held with a key.
#[derive(Debug, Clone, Copy, PartialEq, Eq, Structural)]
pub struct KeyModifiers {
    pub shift: bool,
    pub control: bool,
    pub alt: bool,
    pub super_key: bool,
    pub hyper: bool,
    pub meta: bool,
}

/// No modifier at all.
pub open spec fn bare() -> KeyModifiers {
    KeyModifiers {
        shift: false,
        control: false,
        alt: false,
        super_key: false,
        hyper: false,
        meta: false,
    }
}

/// Control alone.
pub open spec fn with_control() -> KeyModifiers {
    KeyModifiers { control: true, ..bare() }
}

/// The modifiers but for SHIFT.
pub open spec fn unshifted(m: KeyModifiers) -> KeyModifiers {
    KeyModifiers { shift: false, ..m }
}

impl KeyModifiers {
    pub fn none() -> (r: KeyModifiers)
        ensures
            r == bare(),
    {
        KeyModifiers {
            shift: false,
            control: false,
            alt: false,
            super_key: false,
            hyper: false,
            meta: false,
        }
    }

    pub fn ctrl() -> (r: KeyModifiers)
        ensures
            r == with_control(),
    {
        KeyModifiers {
            shift: false,
            control: true,
            alt: false,
            super_key: false,
            hyper: false,
            meta: false,
        }
    }

    pub fn without_shift(self) -> (r: KeyModifiers)
        ensures
            r == unshifted(self),
    {
        KeyModifiers {
            shift: false,
            control: self.control,
            alt: self.alt,
            super_key: self.super_key,
            hyper: self.hyper,
            meta: self.meta,
        }
    }
}

/// A key press.
#[derive(Debug, Clone, Copy, PartialEq, Eq, Structural)]
pub struct KeyEvent {
    pub code: KeyCode,
    pub modifiers: KeyModifiers,
}

impl KeyEvent {
    pub fn new(code: KeyCode, modifiers: KeyModifiers) -> (r: Self)
        ensures
            r == (KeyEvent { code, modifiers }),
    {
        KeyEvent { code, modifiers }
    }
}

/// What a key *means*, once the chord that produced it has been resolved.
///
/// Deliberately coarse. Eleven of these depend on which pane has focus --
/// `MoveDown` walks the tree, scrolls the detail, or moves the sidebar cursor;
/// `Add` makes a subtask in the tree and registers a repo in the sidebar --
/// and that stays the *handler's* business rather than the table's. Per-focus
/// keymaps would be a different design, and a much larger one, for a keymap
/// where the same key genuinely means the same verb in every pane.
#[derive(Debug, Clone, Copy, PartialEq, Eq, Structural)]
pub enum Action {
    Quit,
    Redraw,
    Refresh,
    NextPane,
    PrevPane,
    FocusRepos,
    FocusTree,
    FocusDetail,
    MoveDown,
    MoveUp,
    PageDown,
    PageUp,
    /// `enter` -- the detail pane, or the worktree under the sidebar cursor.
    Open,
    /// `l` / `→` -- expand, scroll right, or step across to the detail.
    StepIn,
    /// `h` / `←` -- collapse, scroll left, or step back.
    StepOut,
    First,
    Last,
    CollapseAll,
    ExpandAll,
    ToggleZoom,
    ToggleWrap,
    ToggleSidebar,
    CycleSort,
    ReverseSort,
    FilterNext,
    FilterPrev,
    Search,
    Help,
    EditConfig,
    NewTask,
    /// `a` -- a subtask of the selection, or the current repo into `saved`.
    Add,
    /// `D` -- forget a saved repo. Sidebar only.
    Forget,
    SaveRepoByPath,
    StartTask,
    CompleteTask,
    RenameTask,
    EditDescription,
    DeleteTask,
}

/// One key, and what it does.
#[derive(Debug, Clone, Copy, PartialEq, Eq, Structural)]
pub struct Binding {
    pub code: KeyCode,
    pub mods: KeyModifiers,
    pub action: Action,
}

/// A key on its own, and what it does.
pub open spec fn key(code: KeyCode, action: Action) -> Binding {
    Binding { code, mods: bare(), action }
}

/// A key with control held, and what it does.
pub open spec fn control(code: KeyCode, action: Action) -> Binding {
    Binding { code, mods: with_control(), action }
}

/// The keymap: the single answer to "is this bound, and to what".
///
/// A key and a chord are different things: a terminal reports `Ctrl-D` as `d`
/// with CONTROL, so a keymap that looked at the key alone would answer to
/// `Ctrl-D` exactly as it answers to `d`. Every entry states its modifiers.
///
/// `Ctrl-L` redraws, because corruption from *outside* the app is invisible to
/// a renderer that only writes what changed. `Ctrl-R` refreshes, because `r` is
/// worth more as rename. `1` to `3` go straight to a pane, numbered left to
/// right as the panes are drawn. `z` is tmux's zoom-pane; minus closes and plus
/// opens, and `=` is accepted for `+` because it is the same physical key
/// without the shift. `w` is the switch between reading prose and reading a wide
/// table. `A` saves a repo you are *not* in, by path; `a` saves the one you are
/// in. `D` rather than a second use of `d`: unregistering is a sidebar-only
/// action, and sharing a key with task deletion would suggest it also deletes
/// something.
#[verifier::opaque]
pub open spec fn keymap() -> Seq<Binding> {
    seq![
        key(KeyCode::Char('q'), Action::Quit),
        key(KeyCode::Esc, Action::Quit),
        control(KeyCode::Char('c'), Action::Quit),
        control(KeyCode::Char('l'), Action::Redraw),
        control(KeyCode::Char('r'), Action::Refresh),
        key(KeyCode::Tab, Action::NextPane),
        key(KeyCode::BackTab, Action::PrevPane),
        key(KeyCode::Char('1'), Action::FocusRepos),
        key(KeyCode::Char('2'), Action::FocusTree),
        key(KeyCode::Char('3'), Action::FocusDetail),
        key(KeyCode::Down, Action::MoveDown),
        key(KeyCode::Char('j'), Action::MoveDown),
        key(KeyCode::Up, Action::MoveUp),
        key(KeyCode::Char('k'), Action::MoveUp),
        key(KeyCode::PageDown, Action::PageDown),
        key(KeyCode::PageUp, Action::PageUp),
        key(KeyCode::Enter, Action::Open),
        key(KeyCode::Right, Action::StepIn),
        key(KeyCode::Char('l'), Action::StepIn),
        key(KeyCode::Left, Action::StepOut),
        key(KeyCode::Char('h'), Action::StepOut),
        key(KeyCode::Char('g'), Action::First),
        key(KeyCode::Char('G'), Action::Last),
        key(KeyCode::Char('z'), Action::ToggleZoom),
        key(KeyCode::Char('-'), Action::CollapseAll),
        key(KeyCode::Char('+'), Action::ExpandAll),
        key(KeyCode::Char('='), Action::ExpandAll),
        key(KeyCode::Char('w'), Action::ToggleWrap),
        key(KeyCode::Char('b'), Action::ToggleSidebar),
        key(KeyCode::Char('o'), Action::CycleSort),
        key(KeyCode::Char('O'), Action::ReverseSort),
        key(KeyCode::Char('f'), Action::FilterNext),
        key(KeyCode::Char('F'), Action::FilterPrev),
        key(KeyCode::Char('/'), Action::Search),
        key(KeyCode::Char('?'), Action::Help),
        key(KeyCode::Char(','), Action::EditConfig),
        key(KeyCode::Char('n'), Action::NewTask),
        key(KeyCode::Char('a'), Action::Add),
        key(KeyCode::Char('s'), Action::StartTask),
        key(KeyCode::Char('c'), Action::CompleteTask),
        key(KeyCode::Char('r'), Action::RenameTask),
        key(KeyCode::Char('e'), Action::EditDescription),
        key(KeyCode::Char('d'), Action::DeleteTask),
        key(KeyCode::Char('A'), Action::SaveRepoByPath),
        key(KeyCode::Char('D'), Action::Forget),
    ]
}

/// Where a chord stands in the keymap, if it is bound.
pub open spec fn slot(code: KeyCode, mods: KeyModifiers) -> Option<int> {
    if mods == bare() {
        match code {
            KeyCode::Char('q') => Some(0),
            KeyCode::Esc => Some(1),
            KeyCode::Tab => Some(5),
            KeyCode::BackTab => Some(6),
            KeyCode::Char('1') => Some(7),
            KeyCode::Char('2') => Some(8),
            KeyCode::Char('3') => Some(9),
            KeyCode::Down => Some(10),
            KeyCode::Char('j') => Some(11),
            KeyCode::Up => Some(12),
            KeyCode::Char('k') => Some(13),
            KeyCode::PageDown => Some(14),
            KeyCode::PageUp => Some(15),
            KeyCode::Enter => Some(16),
            KeyCode::Right => Some(17),
            KeyCode::Char('l') => Some(18),
            KeyCode::Left => Some(19),
            KeyCode::Char('h') => Some(20),
            KeyCode::Char('g') => Some(21),
            KeyCode::Char('G') => Some(22),
            KeyCode::Char('z') => Some(23),
            KeyCode::Char('-') => Some(24),
            KeyCode::Char('+') => Some(25),
            KeyCode::Char('=') => Some(26),
            KeyCode::Char('w') => Some(27),
            KeyCode::Char('b') => Some(28),
            KeyCode::Char('o') => Some(29),
            KeyCode::Char('O') => Some(30),
            KeyCode::Char('f') => Some(31),
            KeyCode::Char('F') => Some(32),
            KeyCode::Char('/') => Some(33),
            KeyCode::Char('?') => Some(34),
            KeyCode::Char(',') => Some(35),
            KeyCode::Char('n') => Some(36),
            KeyCode::Char('a') => Some(37),
            KeyCode::Char('s') => Some(38),
            KeyCode::Char('c') => Some(39),
            KeyCode::Char('r') => Some(40),
            KeyCode::Char('e') => Some(41),
            KeyCode::Char('d') => Some(42),
            KeyCode::Char('A') => Some(43),
            KeyCode::Char('D') => Some(44),
            _ => None,
        }
    } else if mods == with_control() {
        match code {
            KeyCode::Char('c') => Some(2),
            KeyCode::Char('l') => Some(3),
            KeyCode::Char('r') => Some(4),
            _ => None,
        }
    } else {
        None
    }
}

/// What a chord means. SHIFT is not part of one.
pub open spec fn meaning(code: KeyCode, mods: KeyModifiers) -> Option<Action> {
    match slot(code, unshifted(mods)) {
        Some(i) => Some(keymap()[i].action),
        None => None,
    }
}

/// The keymap and the places in it agree: every entry stands at its chord's
/// place, and every place names an entry with that chord.
pub proof fn lemma_slots_name_entries(i: int, code: KeyCode, mods: KeyModifiers)
    ensures
        keymap().len() == 45,
        0 <= i < keymap().len() ==> slot(keymap()[i].code, keymap()[i].mods) == Some(i),
        slot(code, mods) matches Some(k) ==> 0 <= k < keymap().len() && keymap()[k].code == code
            && keymap()[k].mods == mods,
{
    reveal(keymap);
}

/// The keymap, for display.
pub fn bindings() -> (r: Vec<Binding>)
    ensures
        r@ == keymap(),
{
    let none = KeyModifiers::none();
    let ctrl = KeyModifiers::ctrl();
    proof {
        reveal(keymap);
    }
    let r = vec![
        Binding { code: KeyCode::Char('q'), mods: none, action: Action::Quit },
        Binding { code: KeyCode::Esc, mods: none, action: Action::Quit },
        Binding { code: KeyCode::Char('c'), mods: ctrl, action: Action::Quit },
        Binding { code: KeyCode::Char('l'), mods: ctrl, action: Action::Redraw },
        Binding { code: KeyCode::Char('r'), mods: ctrl, action: Action::Refresh },
        Binding { code: KeyCode::Tab, mods: none, action: Action::NextPane },
        Binding { code: KeyCode::BackTab, mods: none, action: Action::PrevPane },
        Binding { code: KeyCode::Char('1'), mods: none, action: Action::FocusRepos },
        Binding { code: KeyCode::Char('2'), mods: none, action: Action::FocusTree },
        Binding { code: KeyCode::Char('3'), mods: none, action: Action::FocusDetail },
        Binding { code: KeyCode::Down, mods: none, action: Action::MoveDown },
        Binding { code: KeyCode::Char('j'), mods: none, action: Action::MoveDown },
        Binding { code: KeyCode::Up, mods: none, action: Action::MoveUp },
        Binding { code: KeyCode::Char('k'), mods: none, action: Action::MoveUp },
        Binding { code: KeyCode::PageDown, mods: none, action: Action::PageDown },
        Binding { code: KeyCode::PageUp, mods: none, action: Action::PageUp },
        Binding { code: KeyCode::Enter, mods: none, action: Action::Open },
        Binding { code: KeyCode::Right, mods: none, action: Action::StepIn },
        Binding { code: KeyCode::Char('l'), mods: none, action: Action::StepIn },
        Binding { code: KeyCode::Left, mods: none, action: Action::StepOut },
        Binding { code: KeyCode::Char('h'), mods: none, action: Action::StepOut },
        Binding { code: KeyCode::Char('g'), mods: none, action: Action::First },
        Binding { code: KeyCode::Char('G'), mods: none, action: Action::Last },
        Binding { code: KeyCode::Char('z'), mods: none, action: Action::ToggleZoom },
        Binding { code: KeyCode::Char('-'), mods: none, action: Action::CollapseAll },
        Binding { code: KeyCode::Char('+'), mods: none, action: Action::ExpandAll },
        Binding { code: KeyCode::Char('='), mods: none, action: Action::ExpandAll },
        Binding { code: KeyCode::Char('w'), mods: none, action: Action::ToggleWrap },
        Binding { code: KeyCode::Char('b'), mods: none, action: Action::ToggleSidebar },
        Binding { code: KeyCode::Char('o'), mods: none, action: Action::CycleSort },
        Binding { code: KeyCode::Char('O'), mods: none, action: Action::ReverseSort },
        Binding { code: KeyCode::Char('f'), mods: none, action: Action::FilterNext },
        Binding { code: KeyCode::Char('F'), mods: none, action: Action::FilterPrev },
        Binding { code: KeyCode::Char('/'), mods: none, action: Action::Search },
        Binding { code: KeyCode::Char('?'), mods: none, action: Action::Help },
        Binding { code: KeyCode::Char(','), mods: none, action: Action::EditConfig },
        Binding { code: KeyCode::Char('n'), mods: none, action: Action::NewTask },
        Binding { code: KeyCode::Char('a'), mods: none, action: Action::Add },
        Binding { code: KeyCode::Char('s'), mods: none, action: Action::StartTask },
        Binding { code: KeyCode::Char('c'), mods: none, action: Action::CompleteTask },
        Binding { code: KeyCode::Char('r'), mods: none, action: Action::RenameTask },
        Binding { code: KeyCode::Char('e'), mods: none, action: Action::EditDescription },
        Binding { code: KeyCode::Char('d'), mods: none, action: Action::DeleteTask },
        Binding { code: KeyCode::Char('A'), mods: none, action: Action::SaveRepoByPath },
        Binding { code: KeyCode::Char('D'), mods: none, action: Action::Forget },
    ];
    assert(r@ =~= keymap());
    r
}

/// SHIFT is not part of a chord, and dropping it here is what keeps `G` one
/// binding rather than two.
///
/// For a `Char` the shift is already carried in the character's *case* -- `G`
/// is not `g` -- and terminals disagree about whether to report the modifier
/// as well. Matching on it would make a binding depend on which terminal the app
/// is running in. `BackTab` arrives carrying SHIFT for the same reason and is
/// normalised the same way.
pub fn chord(key: &KeyEvent) -> (r: (KeyCode, KeyModifiers))
    ensures
        r == (key.code, unshifted(key.modifiers)),
{
    (key.code, key.modifiers.without_shift())
}

/// A linear scan per keypress is not worth indexing: a keypress already costs a
/// repaint, and the table has to stay readable more than it has to stay fast.
pub fn action_for(key: &KeyEvent) -> (r: Option<Action>)
    ensures
        r == meaning(key.code, key.modifiers),
{
    let (code, mods) = chord(key);
    let table = bindings();
    for i in 0..table.len()
        invariant
            table@ == keymap(),
            code == key.code,
            mods == unshifted(key.modifiers),
            slot(code, mods) matches Some(k) ==> k >= i,
    {
        proof {
            lemma_slots_name_entries(i as int, code, mods);
        }
        if table[i].code == code && table[i].mods == mods {
            return Some(table[i].action);
        }
    }
    proof {
        lemma_slots_name_entries(0, code, mods);
    }
    None
}

/// The character a key types, if it types one.
pub open spec fn typed(key: KeyEvent) -> Option<char> {
    match key.code {
        KeyCode::Char(c) => if unshifted(key.modifiers) == bare() {
            Some(c)
        } else {
            None
        },
        _ => None,
    }
}

/// The character a key event *types*, if it types one.
///
/// The text-entry modes are the other half of the chord problem: there a
/// character is data, not a binding. `Ctrl-A` in the rename box -- the reflex
/// for "go to the start of the line" -- must not type an `a` into the task name.
/// Nothing binds those, and doing nothing is the honest outcome.
pub fn typed_char(key: &KeyEvent) -> (r: Option<char>)
    ensures
        r == typed(*key),
{
    match key.code {
        KeyCode::Char(c) => if key.modifiers.without_shift() == KeyModifiers::none() {
            Some(c)
        } else {
            None
        },
        _ => None,
    }
}

/// Whether a key says yes.
pub open spec fn says_yes(key: KeyEvent) -> bool {
    key.code == KeyCode::Enter || typed(key) == Some('y')
}

/// `enter`, or a `y` that was actually typed rather than chorded.
pub fn confirms(key: &KeyEvent) -> (r: bool)
    ensures
        r == says_yes(*key),
{
    key.code == KeyCode::Enter || typed_char(key) == Some('y')
}

/// The keymap is unambiguous: no two entries share a chord, and every entry
/// resolves to itself.
pub proof fn law_the_keymap_is_unambiguous(i: int, j: int)
    requires
        0 <= i < keymap().len(),
        0 <= j < keymap().len(),
    ensures
        keymap()[i].code == keymap()[j].code && keymap()[i].mods == keymap()[j].mods ==> i == j,
        meaning(keymap()[i].code, keymap()[i].mods) == Some(keymap()[i].action),
{
    lemma_slots_name_entries(i, keymap()[i].code, keymap()[i].mods);
    lemma_slots_name_entries(j, keymap()[j].code, keymap()[j].mods);
    reveal(keymap);
}

/// A chord never fires a plain key's binding: with anything but SHIFT held, only
/// `Ctrl-C`, `Ctrl-L` and `Ctrl-R` mean anything, and none of them what the
/// plain letter means. And a chord types nothing.
pub proof fn law_a_chord_does_not_fire_the_plain_key(code: KeyCode, mods: KeyModifiers)
    requires
        unshifted(mods) != bare(),
    ensures
        meaning(code, mods) matches Some(a) ==> unshifted(mods) == with_control() && (code
            == KeyCode::Char('c') && a == Action::Quit || code == KeyCode::Char('l') && a
            == Action::Redraw || code == KeyCode::Char('r') && a == Action::Refresh),
        meaning(code, mods) is Some ==> meaning(code, mods) != meaning(code, bare()),
        typed(KeyEvent { code, modifiers: mods }) is None,
{
    reveal(keymap);
}

/// Whether SHIFT is reported or not makes no difference to what a key means or
/// types.
pub proof fn law_shift_is_not_part_of_a_chord(code: KeyCode, mods: KeyModifiers)
    ensures
        meaning(code, mods) == meaning(code, unshifted(mods)),
        typed(KeyEvent { code, modifiers: mods }) == typed(
            KeyEvent { code, modifiers: unshifted(mods) },
        ),
{
}

/// What each plain key is for, and that no other plain key is for the same: the
/// ones that leave, move, change what is shown, and act on a task or a repo.
pub proof fn law_every_action_has_its_keys(code: KeyCode)
    ensures
        meaning(code, bare()) == Some(Action::Quit) <==> code == KeyCode::Char('q') || code == KeyCode::Esc,
        meaning(code, bare()) == Some(Action::NextPane) <==> code == KeyCode::Tab,
        meaning(code, bare()) == Some(Action::PrevPane) <==> code == KeyCode::BackTab,
        meaning(code, bare()) == Some(Action::FocusRepos) <==> code == KeyCode::Char('1'),
        meaning(code, bare()) == Some(Action::FocusTree) <==> code == KeyCode::Char('2'),
        meaning(code, bare()) == Some(Action::FocusDetail) <==> code == KeyCode::Char('3'),
        meaning(code, bare()) == Some(Action::MoveDown) <==> code == KeyCode::Down || code == KeyCode::Char('j'),
        meaning(code, bare()) == Some(Action::MoveUp) <==> code == KeyCode::Up || code == KeyCode::Char('k'),
        meaning(code, bare()) == Some(Action::PageDown) <==> code == KeyCode::PageDown,
        meaning(code, bare()) == Some(Action::PageUp) <==> code == KeyCode::PageUp,
        meaning(code, bare()) == Some(Action::Open) <==> code == KeyCode::Enter,
        meaning(code, bare()) == Some(Action::StepIn) <==> code == KeyCode::Right || code == KeyCode::Char('l'),
        meaning(code, bare()) == Some(Action::StepOut) <==> code == KeyCode::Left || code == KeyCode::Char('h'),
        meaning(code, bare()) == Some(Action::First) <==> code == KeyCode::Char('g'),
        meaning(code, bare()) == Some(Action::Last) <==> code == KeyCode::Char('G'),
        meaning(code, bare()) == Some(Action::ToggleZoom) <==> code == KeyCode::Char('z'),
        meaning(code, bare()) == Some(Action::CollapseAll) <==> code == KeyCode::Char('-'),
        meaning(code, bare()) == Some(Action::ExpandAll) <==> code == KeyCode::Char('+') || code == KeyCode::Char('='),
        meaning(code, bare()) == Some(Action::ToggleWrap) <==> code == KeyCode::Char('w'),
        meaning(code, bare()) == Some(Action::ToggleSidebar) <==> code == KeyCode::Char('b'),
        meaning(code, bare()) == Some(Action::CycleSort) <==> code == KeyCode::Char('o'),
        meaning(code, bare()) == Some(Action::ReverseSort) <==> code == KeyCode::Char('O'),
        meaning(code, bare()) == Some(Action::FilterNext) <==> code == KeyCode::Char('f'),
        meaning(code, bare()) == Some(Action::FilterPrev) <==> code == KeyCode::Char('F'),
        meaning(code, bare()) == Some(Action::Search) <==> code == KeyCode::Char('/'),
        meaning(code, bare()) == Some(Action::Help) <==> code == KeyCode::Char('?'),
        meaning(code, bare()) == Some(Action::EditConfig) <==> code == KeyCode::Char(','),
        meaning(code, bare()) == Some(Action::NewTask) <==> code == KeyCode::Char('n'),
        meaning(code, bare()) == Some(Action::Add) <==> code == KeyCode::Char('a'),
        meaning(code, bare()) == Some(Action::StartTask) <==> code == KeyCode::Char('s'),
        meaning(code, bare()) == Some(Action::CompleteTask) <==> code == KeyCode::Char('c'),
        meaning(code, bare()) == Some(Action::RenameTask) <==> code == KeyCode::Char('r'),
        meaning(code, bare()) == Some(Action::EditDescription) <==> code == KeyCode::Char('e'),
        meaning(code, bare()) == Some(Action::DeleteTask) <==> code == KeyCode::Char('d'),
        meaning(code, bare()) == Some(Action::SaveRepoByPath) <==> code == KeyCode::Char('A'),
        meaning(code, bare()) == Some(Action::Forget) <==> code == KeyCode::Char('D'),
        meaning(code, bare()) != Some(Action::Redraw),
        meaning(code, bare()) != Some(Action::Refresh),
{
    reveal(keymap);
}

/// A yes is `enter`, or a `y` typed with nothing held but perhaps SHIFT.
pub proof fn law_a_yes_is_said_on_purpose(key: KeyEvent)
    ensures
        says_yes(key) <==> key.code == KeyCode::Enter || key.code == KeyCode::Char('y')
            && !key.modifiers.control && !key.modifiers.alt && !key.modifiers.super_key
            && !key.modifiers.hyper && !key.modifiers.meta,
        typed(key) is Some <==> key.code is Char && !key.modifiers.control && !key.modifiers.alt
            && !key.modifiers.super_key && !key.modifiers.hyper && !key.modifiers.meta,
        typed(key) is Some ==> key.code == KeyCode::Char(typed(key)->0),
{
}

} // verus!
