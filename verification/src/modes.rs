//! Dialogs: what is open, what typing into it does, and what accepting it asks
//! for.

use vstd::prelude::*;

use crate::app::{fits, rebuilt, rebuilt_around, selects, App, Mode, Pending, Prompt, TextInput};
use crate::effects::{effect_views, first_then, just, nothing, Effect, EffectView, Verb, VerbView};
use crate::input::{put_in, taken_out};
use crate::keys::{typed, typed_char, KeyCode, KeyEvent};
use crate::panes::help_scrolled;
use crate::text::{
    clone_opt, concat, is_space, law_nothing_is_left_of_blank_text, opt_text, starts, starts_with,
    trim, trimmed,
};

verus! {

impl Clone for Pending {
    fn clone(&self) -> (r: Self)
        ensures
            r == *self,
    {
        match self {
            Pending::Complete { id } => Pending::Complete { id: id.clone() },
            Pending::CreateName { parent } => Pending::CreateName { parent: clone_opt(parent) },
            Pending::CreateDescription { parent, name } => Pending::CreateDescription {
                parent: clone_opt(parent),
                name: name.clone(),
            },
            Pending::EditName { id } => Pending::EditName { id: id.clone() },
            Pending::SaveRepo => Pending::SaveRepo,
        }
    }
}

impl Clone for Prompt {
    fn clone(&self) -> (r: Self)
        ensures
            r == *self,
    {
        Prompt {
            title: self.title.clone(),
            label: self.label.clone(),
            input: self.input.clone(),
            pending: self.pending.clone(),
        }
    }
}

impl Clone for Mode {
    fn clone(&self) -> (r: Self)
        ensures
            r == *self,
    {
        match self {
            Mode::Normal => Mode::Normal,
            Mode::Search => Mode::Search,
            Mode::Prompt(p) => Mode::Prompt(p.clone()),
            Mode::Confirm { id, message } => Mode::Confirm {
                id: id.clone(),
                message: message.clone(),
            },
            Mode::ForceComplete { id, result, message } => Mode::ForceComplete {
                id: id.clone(),
                result: result.clone(),
                message: message.clone(),
            },
            Mode::Error(e) => Mode::Error(e.clone()),
            Mode::Help => Mode::Help,
        }
    }
}

/// What a prompt does once accepted, as plain texts.
pub ghost enum PendingView {
    Complete { id: Seq<char> },
    CreateName { parent: Option<Seq<char>> },
    CreateDescription { parent: Option<Seq<char>>, name: Seq<char> },
    EditName { id: Seq<char> },
    SaveRepo,
}

impl View for Pending {
    type V = PendingView;

    open spec fn view(&self) -> PendingView {
        match *self {
            Pending::Complete { id } => PendingView::Complete { id: id@ },
            Pending::CreateName { parent } => PendingView::CreateName { parent: opt_text(parent) },
            Pending::CreateDescription { parent, name } => PendingView::CreateDescription {
                parent: opt_text(parent),
                name: name@,
            },
            Pending::EditName { id } => PendingView::EditName { id: id@ },
            Pending::SaveRepo => PendingView::SaveRepo,
        }
    }
}

/// What a prompt shows and does.
pub ghost struct PromptView {
    pub title: Seq<char>,
    pub label: Seq<char>,
    pub value: Seq<char>,
    pub cursor: int,
    pub pending: PendingView,
}

impl View for Prompt {
    type V = PromptView;

    open spec fn view(&self) -> PromptView {
        PromptView {
            title: self.title@,
            label: self.label@,
            value: self.input.value@,
            cursor: self.input.cursor as int,
            pending: self.pending@,
        }
    }
}

/// What is open.
pub ghost enum ModeView {
    Normal,
    Search,
    Prompt(PromptView),
    Confirm { id: Seq<char>, message: Seq<char> },
    ForceComplete { id: Seq<char>, result: Seq<char>, message: Seq<char> },
    Error(Seq<char>),
    Help,
}

impl View for Mode {
    type V = ModeView;

    open spec fn view(&self) -> ModeView {
        match *self {
            Mode::Normal => ModeView::Normal,
            Mode::Search => ModeView::Search,
            Mode::Prompt(p) => ModeView::Prompt(p@),
            Mode::Confirm { id, message } => ModeView::Confirm { id: id@, message: message@ },
            Mode::ForceComplete { id, result, message } => ModeView::ForceComplete {
                id: id@,
                result: result@,
                message: message@,
            },
            Mode::Error(e) => ModeView::Error(e@),
            Mode::Help => ModeView::Help,
        }
    }
}

/// A fresh prompt with an empty field.
pub open spec fn blank_prompt(
    title: Seq<char>,
    label: Seq<char>,
    pending: PendingView,
) -> ModeView {
    ModeView::Prompt(PromptView { title, label, value: Seq::empty(), cursor: 0, pending })
}

/// What opening something leaves.
#[verifier::opaque]
pub open spec fn opened(pre: App, mode: ModeView, post: App) -> bool {
    &&& post == (App { mode: post.mode, ..pre })
    &&& post.mode@ == mode
}

/// What saying something in the status bar leaves.
#[verifier::opaque]
pub open spec fn said(pre: App, text: Seq<char>, post: App) -> bool {
    &&& post == (App { status: post.status, ..pre })
    &&& post.status@ == text
}

/// What closing a dialog leaves.
#[verifier::opaque]
pub open spec fn closed(pre: App, post: App) -> bool {
    post == (App { mode: Mode::Normal, pending_refresh: false, ..pre })
}

/// What closing a dialog asks for: the refresh that arrived while it was open.
pub open spec fn owed(pending_refresh: bool, store: Seq<char>) -> Seq<EffectView> {
    if pending_refresh {
        seq![EffectView::Refresh { store }]
    } else {
        Seq::empty()
    }
}

/// What changing the search leaves: the forest built anew for it.
#[verifier::opaque]
pub open spec fn searched(pre: App, value: Seq<char>, cursor: int, post: App) -> bool {
    &&& rebuilt(App { query: post.query, ..pre }, post)
    &&& post.query.value@ == value
    &&& post.query.cursor == cursor
}

/// What moving the search's cursor leaves.
#[verifier::opaque]
pub open spec fn search_moved(pre: App, cursor: int, post: App) -> bool {
    &&& post == (App { query: post.query, ..pre })
    &&& post.query.value == pre.query.value
    &&& post.query.cursor == cursor
}

/// Where the left arrow takes a cursor.
pub open spec fn leftward(cursor: int) -> int {
    if cursor == 0 {
        0
    } else {
        cursor - 1
    }
}

/// Where the right arrow takes a cursor.
pub open spec fn rightward(cursor: int, len: int) -> int {
    if cursor < len {
        cursor + 1
    } else {
        len
    }
}

/// A text once backspace has been pressed in it.
pub open spec fn rubbed_out(value: Seq<char>, cursor: int) -> Seq<char> {
    if cursor == 0 {
        value
    } else {
        taken_out(value, cursor - 1)
    }
}

/// What a key does while searching.
pub open spec fn search_keyed(pre: App, key: KeyEvent, post: App) -> bool {
    let (value, cursor) = (pre.query.value@, pre.query.cursor as int);
    match key.code {
        KeyCode::Esc | KeyCode::Enter => opened(pre, ModeView::Normal, post),
        KeyCode::Backspace => searched(pre, rubbed_out(value, cursor), leftward(cursor), post),
        KeyCode::Left => search_moved(pre, leftward(cursor), post),
        KeyCode::Right => search_moved(pre, rightward(cursor, value.len() as int), post),
        _ => match typed(key) {
            Some(c) => searched(pre, put_in(value, cursor, c), cursor + 1, post),
            None => post == pre,
        },
    }
}

/// A prompt once a key has been pressed in its field; nothing when the key does
/// nothing there.
pub open spec fn prompt_after(p: PromptView, key: KeyEvent) -> Option<PromptView> {
    match key.code {
        KeyCode::Backspace => Some(
            PromptView {
                value: rubbed_out(p.value, p.cursor),
                cursor: leftward(p.cursor),
                ..p
            },
        ),
        KeyCode::Left => Some(PromptView { cursor: leftward(p.cursor), ..p }),
        KeyCode::Right => Some(
            PromptView { cursor: rightward(p.cursor, p.value.len() as int), ..p },
        ),
        _ => match typed(key) {
            Some(c) => Some(
                PromptView { value: put_in(p.value, p.cursor, c), cursor: p.cursor + 1, ..p },
            ),
            None => None,
        },
    }
}

/// Whether what was typed is blank.
pub open spec fn blank(value: Seq<char>) -> bool {
    trimmed(value).len() == 0
}

/// What accepting a prompt leaves, and asks for.
pub open spec fn submitted(pre: App, p: PromptView, post: App, fx: Seq<EffectView>) -> bool {
    let owing = owed(pre.pending_refresh, pre.store_dir@);
    match p.pending {
        PendingView::SaveRepo => post == pre && fx == seq![EffectView::SaveAt { typed: p.value }],
        PendingView::CreateName { parent } => if blank(p.value) {
            closed(pre, post) && fx == owing
        } else {
            // Two-step flows chain into a second prompt rather than acting yet.
            &&& opened(
                pre,
                blank_prompt(
                    p.title,
                    "Description (may be left empty)"@,
                    PendingView::CreateDescription { parent, name: p.value },
                ),
                post,
            )
            &&& fx == Seq::<EffectView>::empty()
        },
        PendingView::CreateDescription { parent, name } => {
            &&& closed(pre, post)
            &&& fx == seq![
                EffectView::Write {
                    verb: VerbView::Create { name, description: p.value, parent },
                    success: "created "@ + name,
                },
            ] + owing
        },
        PendingView::EditName { id } => if blank(p.value) {
            closed(pre, post) && fx == owing
        } else {
            &&& closed(pre, post)
            &&& fx == seq![
                EffectView::Write {
                    verb: VerbView::Edit { id, name: Some(p.value), description: None },
                    success: "renamed to "@ + p.value,
                },
            ] + owing
        },
        PendingView::Complete { id } => {
            &&& exists|mid: App| #[trigger] closed(pre, mid) && said(mid, "completing…"@, post)
            &&& fx == seq![EffectView::TryComplete { id, result: p.value }] + owing
        },
    }
}

/// What a key does while a prompt is open.
pub open spec fn prompt_keyed(
    pre: App,
    p: PromptView,
    key: KeyEvent,
    post: App,
    fx: Seq<EffectView>,
) -> bool {
    match key.code {
        KeyCode::Esc => closed(pre, post) && fx == owed(pre.pending_refresh, pre.store_dir@),
        KeyCode::Enter => submitted(pre, p, post, fx),
        _ => {
            &&& fx == Seq::<EffectView>::empty()
            &&& match prompt_after(p, key) {
                Some(q) => opened(pre, ModeView::Prompt(q), post),
                None => post == pre,
            }
        },
    }
}

/// How far a key scrolls the help; nothing when it dismisses it.
pub open spec fn help_step(code: KeyCode, page: int) -> Option<int> {
    match code {
        KeyCode::Down | KeyCode::Char('j') => Some(1),
        KeyCode::Up | KeyCode::Char('k') => Some(-1),
        KeyCode::PageDown => Some(page),
        KeyCode::PageUp => Some(-page),
        KeyCode::Home | KeyCode::Char('g') => Some(i32::MIN as int),
        KeyCode::End | KeyCode::Char('G') => Some(i32::MAX as int),
        _ => None,
    }
}

/// A page is what is on screen, and one line before anything has been.
pub open spec fn help_page(viewport: u16) -> int {
    if viewport == 0 {
        1
    } else {
        viewport as int
    }
}

/// What a key does while the help is open.
pub open spec fn help_keyed(pre: App, key: KeyEvent, post: App, fx: Seq<EffectView>) -> bool {
    match help_step(key.code, help_page(pre.help_viewport_height)) {
        Some(dy) => help_scrolled(pre, dy, post) && fx == Seq::<EffectView>::empty(),
        None => closed(pre, post) && fx == owed(pre.pending_refresh, pre.store_dir@),
    }
}

/// The name of a held task; nothing for one that is not held.
pub open spec fn name_of(app: App, id: Seq<char>) -> Seq<char> {
    if app.held().contains_key(id) {
        app.held()[id].name
    } else {
        Seq::empty()
    }
}

/// What a confirmed dialog asks for: forgetting a repo where its id names one,
/// deleting a task otherwise.
pub open spec fn confirmed(id: Seq<char>, name: Seq<char>) -> EffectView {
    if starts(id, "repo:"@) {
        EffectView::Forget { path: id.skip(5) }
    } else {
        EffectView::Write { verb: VerbView::Delete { id }, success: "deleted "@ + name }
    }
}

impl App {
    /// Says something in the status bar.
    pub(crate) fn say(&mut self, text: &str)
        ensures
            said(*old(self), text@, *final(self)),
            old(self).wf() ==> final(self).wf(),
    {
        proof {
            reveal(said);
        }
        self.status = text.to_owned();
    }

    /// Opens a dialog, or none.
    pub(crate) fn open(&mut self, mode: Mode)
        requires
            mode matches Mode::Prompt(p) ==> p.input.wf(),
        ensures
            opened(*old(self), mode@, *final(self)),
            old(self).wf() ==> final(self).wf(),
    {
        proof {
            reveal(opened);
            reveal(fits);
        }
        self.mode = mode;
    }

    /// Closes whatever is open, and asks for the refresh it held up.
    pub fn close_modal(&mut self) -> (r: Vec<Effect>)
        ensures
            closed(*old(self), *final(self)),
            effect_views(r@) == owed(old(self).pending_refresh, old(self).store_dir@),
            old(self).wf() ==> final(self).wf(),
    {
        let owing = self.owing();
        self.shut();
        owing
    }

    fn shut(&mut self)
        ensures
            closed(*old(self), *final(self)),
            old(self).wf() ==> final(self).wf(),
    {
        proof {
            reveal(closed);
            reveal(fits);
        }
        self.mode = Mode::Normal;
        self.pending_refresh = false;
    }

    fn owing(&self) -> (r: Vec<Effect>)
        ensures
            effect_views(r@) == owed(self.pending_refresh, self.store_dir@),
    {
        if self.pending_refresh {
            just(Effect::Refresh { store: self.store_dir.clone() })
        } else {
            nothing()
        }
    }

    fn query_to(&mut self, query: TextInput)
        requires
            query.wf(),
        ensures
            searched(*old(self), query.value@, query.cursor as int, *final(self)),
            old(self).wf() ==> final(self).wf(),
    {
        proof {
            reveal(searched);
            reveal(rebuilt_around);
            reveal(selects);
            reveal(fits);
        }
        self.query = query;
        self.rebuild();
    }

    fn query_cursor_to(&mut self, query: TextInput)
        requires
            query.wf(),
            query.value == old(self).query.value,
        ensures
            search_moved(*old(self), query.cursor as int, *final(self)),
            old(self).wf() ==> final(self).wf(),
    {
        proof {
            reveal(search_moved);
            reveal(fits);
        }
        self.query = query;
    }

    /// A key while searching.
    pub fn handle_search(&mut self, key: KeyEvent)
        requires
            old(self).wf(),
        ensures
            search_keyed(*old(self), key, *final(self)),
            final(self).wf(),
    {
        proof {
            reveal(fits);
        }
        let mut q = self.query.clone();
        match key.code {
            KeyCode::Esc => self.open(Mode::Normal),
            KeyCode::Enter => self.open(Mode::Normal),
            KeyCode::Backspace => {
                q.backspace();
                self.query_to(q);
            },
            KeyCode::Left => {
                q.left();
                self.query_cursor_to(q);
            },
            KeyCode::Right => {
                q.right();
                self.query_cursor_to(q);
            },
            _ => {
                if let Some(c) = typed_char(&key) {
                    q.insert(c);
                    self.query_to(q);
                }
            },
        }
    }

    /// A key while the help is open. The help is longer than a short terminal,
    /// so the movement keys scroll it; everything else still dismisses.
    pub fn handle_help(&mut self, key: KeyEvent) -> (r: Vec<Effect>)
        requires
            old(self).wf(),
        ensures
            help_keyed(*old(self), key, *final(self), effect_views(r@)),
            final(self).wf(),
    {
        match help_key(key.code, self.help_viewport_height) {
            Some(dy) => {
                self.scroll_help(dy);
                nothing()
            },
            None => self.close_modal(),
        }
    }

    /// A key while a prompt is open.
    pub fn handle_prompt(&mut self, key: KeyEvent, p: Prompt) -> (r: Vec<Effect>)
        requires
            old(self).wf(),
            p.input.wf(),
        ensures
            prompt_keyed(*old(self), p@, key, *final(self), effect_views(r@)),
            final(self).wf(),
    {
        match key.code {
            KeyCode::Esc => self.close_modal(),
            KeyCode::Enter => self.submit(p),
            _ => {
                if let Some(q) = type_into(p, key) {
                    self.open(Mode::Prompt(q));
                }
                nothing()
            },
        }
    }

    /// Accepts a prompt.
    pub fn submit(&mut self, p: Prompt) -> (r: Vec<Effect>)
        requires
            old(self).wf(),
        ensures
            submitted(*old(self), p@, *final(self), effect_views(r@)),
            final(self).wf(),
    {
        let value = p.input.value.clone();
        let is_blank = trim(value.as_str()).unicode_len() == 0;
        match p.pending {
            // The one prompt that is not about a task. Validated before it is
            // saved: a path that is not a git repo would come back as a row
            // that could never resolve a store.
            Pending::SaveRepo => just(Effect::SaveAt { typed: value }),
            Pending::CreateName { parent } => {
                if is_blank {
                    return self.close_modal();
                }
                self.open(
                    Mode::Prompt(
                        Prompt {
                            title: p.title,
                            label: "Description (may be left empty)".to_owned(),
                            input: TextInput::default(),
                            pending: Pending::CreateDescription { parent, name: value },
                        },
                    ),
                );
                nothing()
            },
            Pending::CreateDescription { parent, name } => {
                let success = concat("created ", name.as_str());
                let rest = self.close_modal();
                first_then(
                    Effect::Write {
                        verb: Verb::Create { name, description: value, parent },
                        success,
                    },
                    rest,
                )
            },
            Pending::EditName { id } => {
                let rest = self.close_modal();
                if is_blank {
                    return rest;
                }
                let success = concat("renamed to ", value.as_str());
                first_then(
                    Effect::Write {
                        verb: Verb::Edit { id, name: Some(value), description: None },
                        success,
                    },
                    rest,
                )
            },
            Pending::Complete { id } => {
                let rest = self.close_modal();
                let ghost mid = *self;
                self.say("completing…");
                assert(closed(*old(self), mid));
                first_then(Effect::TryComplete { id, result: value }, rest)
            },
        }
    }

    /// A confirmed delete dialog. The id is overloaded: a `repo:` prefix means
    /// a repo is to be forgotten rather than a task deleted. Unlike a task id (a
    /// short slug with no colon), a repo path can never collide with it.
    pub(crate) fn confirm(&self, id: String) -> (r: Effect)
        ensures
            r@ == confirmed(id@, name_of(*self, id@)),
    {
        if starts_with(id.as_str(), "repo:") {
            proof {
                reveal_strlit("repo:");
            }
            let n: usize = id.as_str().unicode_len();
            let path = id.as_str().substring_char(5, n);
            assert(path@ =~= id@.skip(5));
            Effect::Forget { path: path.to_owned() }
        } else {
            let name = match self.by_id.get(id.as_str()) {
                Some(t) => t.name.clone(),
                None => String::new(),
            };
            assert(self.held().contains_key(id@) == self.by_id@.contains_key(id@));
            Effect::Write {
                success: concat("deleted ", name.as_str()),
                verb: Verb::Delete { id },
            }
        }
    }
}

fn help_key(code: KeyCode, viewport: u16) -> (r: Option<i32>)
    ensures
        match (r, help_step(code, help_page(viewport))) {
            (Some(a), Some(b)) => a == b,
            (None, None) => true,
            _ => false,
        },
{
    let page: i32 = if viewport == 0 {
        1
    } else {
        viewport as i32
    };
    match code {
        KeyCode::Down => Some(1),
        KeyCode::Char('j') => Some(1),
        KeyCode::Up => Some(-1),
        KeyCode::Char('k') => Some(-1),
        KeyCode::PageDown => Some(page),
        KeyCode::PageUp => Some(-page),
        KeyCode::Home => Some(i32::MIN),
        KeyCode::Char('g') => Some(i32::MIN),
        KeyCode::End => Some(i32::MAX),
        KeyCode::Char('G') => Some(i32::MAX),
        _ => None,
    }
}

fn type_into(p: Prompt, key: KeyEvent) -> (r: Option<Prompt>)
    requires
        p.input.wf(),
        key.code != KeyCode::Esc,
        key.code != KeyCode::Enter,
    ensures
        match (r, prompt_after(p@, key)) {
            (Some(a), Some(b)) => a@ == b && a.input.wf(),
            (None, None) => true,
            _ => false,
        },
{
    let mut q = p;
    match key.code {
        KeyCode::Backspace => {
            q.input.backspace();
        },
        KeyCode::Left => {
            q.input.left();
        },
        KeyCode::Right => {
            q.input.right();
        },
        _ => {
            match typed_char(&key) {
                Some(c) => {
                    q.input.insert(c);
                },
                None => {
                    return None;
                },
            }
        },
    }
    Some(q)
}

// ---------------------------------------------------------------------------
// What dialogs promise
// ---------------------------------------------------------------------------

/// A chord never types its letter into a text field: a prompt with anything but
/// SHIFT held beside a letter stays as it is.
pub proof fn law_a_chord_types_nothing(p: PromptView, key: KeyEvent)
    requires
        key.code is Char,
        crate::keys::unshifted(key.modifiers) != crate::keys::bare(),
    ensures
        prompt_after(p, key) is None,
{
}

/// Typing a letter and rubbing it out leaves the field as it was.
pub proof fn law_rubbing_out_undoes_typing(p: PromptView, key: KeyEvent, back: KeyEvent)
    requires
        0 <= p.cursor <= p.value.len(),
        typed(key) is Some,
        back.code == KeyCode::Backspace,
    ensures
        prompt_after(p, key) is Some,
        prompt_after(prompt_after(p, key)->0, back) == Some(p),
{
    crate::input::law_backspace_undoes_typing(p.value, p.cursor, typed(key)->0);
}

/// Closing a dialog owes nothing unless a refresh arrived while it was open,
/// and after that nothing is owed any more.
pub proof fn law_a_deferred_refresh_is_asked_for_once(pre: App, post: App)
    requires
        closed(pre, post),
    ensures
        post.mode is Normal,
        !post.pending_refresh,
        owed(post.pending_refresh, post.store_dir@) == Seq::<EffectView>::empty(),
        pre.pending_refresh ==> owed(pre.pending_refresh, pre.store_dir@) == seq![
            EffectView::Refresh { store: pre.store_dir@ },
        ],
{
    reveal(closed);
}

/// Accepting a prompt sends what was typed, as it was typed, about the task the
/// prompt was opened for: a rename its new name and nothing of the description,
/// a completion its result, a new task its name and then its description under
/// the parent it was asked for, a repo its path. A blank name sends nothing.
pub proof fn law_a_prompt_sends_what_was_typed(
    pre: App,
    p: PromptView,
    key: KeyEvent,
    post: App,
    fx: Seq<EffectView>,
)
    requires
        prompt_keyed(pre, p, key, post, fx),
        key.code == KeyCode::Enter,
        !pre.pending_refresh,
    ensures
        ({
            let empty = forall|i: int| 0 <= i < p.value.len() ==> is_space(#[trigger] p.value[i]);
            match p.pending {
                PendingView::EditName { id } => if empty {
                    fx.len() == 0
                } else {
                    fx.len() == 1 && fx[0] is Write && fx[0]->verb == (VerbView::Edit {
                        id,
                        name: Some(p.value),
                        description: None,
                    })
                },
                PendingView::CreateDescription { parent, name } => fx.len() == 1 && fx[0] is Write
                    && fx[0]->verb == (VerbView::Create { name, description: p.value, parent }),
                PendingView::CreateName { parent } => fx.len() == 0 && (empty ==> post.mode
                    is Normal) && (!empty ==> post.mode@ is Prompt && post.mode@->Prompt_0.pending
                    == (PendingView::CreateDescription { parent, name: p.value })
                    && post.mode@->Prompt_0.value.len() == 0),
                PendingView::Complete { id } => fx.len() == 1 && fx[0] == (EffectView::TryComplete {
                    id,
                    result: p.value,
                }),
                PendingView::SaveRepo => fx.len() == 1 && fx[0] == (EffectView::SaveAt {
                    typed: p.value,
                }),
            }
        }),
        post.tasks == pre.tasks && post.store_dir == pre.store_dir && post.selected == pre.selected,
{
    reveal(closed);
    reveal(opened);
    reveal(said);
    law_nothing_is_left_of_blank_text(p.value);
}

/// Whatever is being asked, `esc` drops it: nothing is sent but a refresh that
/// was held up, and everything else stays.
pub proof fn law_escape_sends_nothing(
    pre: App,
    p: PromptView,
    key: KeyEvent,
    post: App,
    fx: Seq<EffectView>,
)
    requires
        prompt_keyed(pre, p, key, post, fx),
        key.code == KeyCode::Esc,
    ensures
        post.mode is Normal,
        post.tasks == pre.tasks && post.status == pre.status && post.selected == pre.selected,
        !pre.pending_refresh ==> fx.len() == 0,
        pre.pending_refresh ==> fx.len() == 1 && fx[0] == (EffectView::Refresh {
            store: pre.store_dir@,
        }),
{
    reveal(closed);
}

/// Typing into a field puts each character where the cursor is and the cursor
/// behind it; the arrows move the cursor by one and stop at the ends; and none
/// of it touches the rest of the prompt.
pub proof fn law_a_field_takes_what_is_typed(p: PromptView, key: KeyEvent)
    requires
        0 <= p.cursor <= p.value.len(),
    ensures
        prompt_after(p, key) matches Some(q) ==> {
            &&& q.title == p.title && q.label == p.label && q.pending == p.pending
            &&& 0 <= q.cursor <= q.value.len()
            &&& key.code == KeyCode::Left ==> q.value == p.value && (p.cursor > 0 ==> q.cursor
                == p.cursor - 1) && (p.cursor == 0 ==> q.cursor == 0)
            &&& key.code == KeyCode::Right ==> q.value == p.value && (p.cursor < p.value.len()
                ==> q.cursor == p.cursor + 1) && (p.cursor == p.value.len() ==> q.cursor
                == p.cursor)
            &&& key.code is Char ==> q.value == p.value.take(p.cursor).push(key.code->Char_0)
                + p.value.skip(p.cursor) && q.cursor == p.cursor + 1
            &&& key.code == KeyCode::Backspace && p.cursor > 0 ==> q.value == p.value.take(
                p.cursor - 1,
            ) + p.value.skip(p.cursor) && q.cursor == p.cursor - 1
            &&& key.code == KeyCode::Backspace && p.cursor == 0 ==> q == p
        },
        key.code is Char && !key.modifiers.control && !key.modifiers.alt && !key.modifiers.super_key
            && !key.modifiers.hyper && !key.modifiers.meta ==> prompt_after(p, key) is Some,
        key.code == KeyCode::Left || key.code == KeyCode::Right || key.code == KeyCode::Backspace
            ==> prompt_after(p, key) is Some,
{
    if let Some(q) = prompt_after(p, key) {
        if key.code is Char {
            let c = key.code->Char_0;
            assert(p.value.insert(p.cursor, c) =~= p.value.take(p.cursor).push(c) + p.value.skip(
                p.cursor,
            ));
        }
        if key.code == KeyCode::Backspace && p.cursor > 0 {
            assert(p.value.remove(p.cursor - 1) =~= p.value.take(p.cursor - 1) + p.value.skip(
                p.cursor,
            ));
        }
    }
}

/// What a confirmed dialog asks for is what its id says: the repo behind
/// `repo:`, and otherwise the task of that id and no other.
pub proof fn law_a_yes_takes_what_was_named(path: Seq<char>, id: Seq<char>, name: Seq<char>)
    ensures
        confirmed("repo:"@ + path, name) == (EffectView::Forget { path }),
        id.len() < 5 || id.take(5) != "repo:"@ ==> confirmed(id, name) is Write && confirmed(
            id,
            name,
        )->verb == (VerbView::Delete { id }),
{
    reveal_strlit("repo:");
    let full = "repo:"@ + path;
    assert(full.subrange(0, 5) =~= "repo:"@);
    assert(full.skip(5) =~= path);
    if id.len() >= 5 {
        assert(id.subrange(0, 5) =~= id.take(5));
    }
}

/// The search takes what is typed as a prompt does, and the forest is built for
/// it at once; `esc` and `enter` leave the search as it stands.
pub proof fn law_the_search_takes_what_is_typed(pre: App, key: KeyEvent, post: App)
    requires
        search_keyed(pre, key, post),
        pre.query.wf(),
    ensures
        ({
            let (v, c) = (pre.query.value@, pre.query.cursor as int);
            &&& key.code == KeyCode::Esc || key.code == KeyCode::Enter ==> post.mode is Normal
                && post.query == pre.query && post.tree == pre.tree
            &&& typed(key) is Some ==> post.query.value@ == v.take(c).push(typed(key)->0) + v.skip(c)
                && post.query.cursor == c + 1
            &&& key.code == KeyCode::Backspace && c > 0 ==> post.query.value@ == v.take(c - 1)
                + v.skip(c) && post.query.cursor == c - 1
            &&& key.code == KeyCode::Left || key.code == KeyCode::Right ==> post.query.value@ == v
                && post.tree == pre.tree
            &&& typed(key) is Some || key.code == KeyCode::Backspace ==> post.nodes()
                == crate::tree::forest(pre.task_list(), post.lens()) && post.mode == pre.mode
        }),
        post.tasks == pre.tasks && post.filter == pre.filter && post.sort == pre.sort,
{
    reveal(opened);
    reveal(searched);
    reveal(search_moved);
    reveal(rebuilt_around);
    reveal(selects);
    let (v, c) = (pre.query.value@, pre.query.cursor as int);
    if typed(key) is Some {
        assert(v.insert(c, typed(key)->0) =~= v.take(c).push(typed(key)->0) + v.skip(c));
    }
    if key.code == KeyCode::Backspace && c > 0 {
        assert(v.remove(c - 1) =~= v.take(c - 1) + v.skip(c));
    }
}

/// In the help the movement keys scroll, a line, a page or to an end, and every
/// other key closes it.
pub proof fn law_the_help_scrolls_or_closes(
    pre: App,
    key: KeyEvent,
    post: App,
    fx: Seq<EffectView>,
)
    requires
        help_keyed(pre, key, post, fx),
        pre.mode is Help,
    ensures
        ({
            let down = key.code == KeyCode::Down || key.code == KeyCode::Char('j');
            let up = key.code == KeyCode::Up || key.code == KeyCode::Char('k');
            let top = key.code == KeyCode::Home || key.code == KeyCode::Char('g');
            let end = key.code == KeyCode::End || key.code == KeyCode::Char('G');
            let page = key.code == KeyCode::PageDown || key.code == KeyCode::PageUp;
            &&& down || up || top || end || page <==> post.mode is Help
            &&& down ==> help_scrolled(pre, 1, post)
            &&& up ==> help_scrolled(pre, -1, post)
            &&& key.code == KeyCode::PageDown && pre.help_viewport_height > 0 ==> help_scrolled(
                pre,
                pre.help_viewport_height as int,
                post,
            )
            &&& key.code == KeyCode::PageUp && pre.help_viewport_height > 0 ==> help_scrolled(
                pre,
                -(pre.help_viewport_height as int),
                post,
            )
            &&& top ==> post.help_scroll == 0
            &&& end && pre.help_content_height >= pre.help_viewport_height ==> post.help_scroll
                == pre.help_content_height - pre.help_viewport_height
            &&& post.mode is Help ==> fx.len() == 0
        }),
{
    reveal(closed);
    reveal(help_scrolled);
}

} // verus!
