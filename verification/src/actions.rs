//! What every key does.

use vstd::prelude::*;

use crate::app::{
    all_collapsed, all_expanded, collapses, expands, first_of, has_branch, last_of,
    law_moving_steps_along_the_rows, moved, rebuilt_around, selects, App, Focus, Mode, Pending, Prompt, TextInput,
};
use crate::dex::{Task, TaskView};
use crate::effects::{effect_views, first_then, just, nothing, Effect, EffectView, Verb, VerbView};
use crate::keys::{
    action_for, confirms, law_every_action_has_its_keys, meaning, says_yes, Action, KeyCode, KeyEvent,
};
use crate::modes::{
    blank_prompt, closed, confirmed, help_keyed, name_of, opened, owed, prompt_keyed, said,
    search_keyed, ModeView, PendingView, PromptView,
};
use crate::panes::{
    cycle_of, detail_at, detail_room, detail_scrolled, focus_after, focused, help_opened, less_by,
    lone, relooked, repos_shown, repos_toggled, wrap_toggled, zoomed,
};
use crate::refresh::entered;
use crate::repos::can_rest;
use crate::sidebar::{
    law_a_step_goes_to_the_row_it_names, law_the_ends_of_the_sidebar, owned_by, path_behind,
    rest_near, row_moved, row_under_cursor, stepped,
};
use crate::text::{concat, concat3, decimal, decimal_of, opt_text, same_opt};
use crate::tree::{filter_after, filter_before, kids, lemma_kids_step, sort_after};

verus! {

// ---------------------------------------------------------------------------
// The sidebar cursor
// ---------------------------------------------------------------------------

/// What queueing a store switch leaves.
#[verifier::opaque]
pub open spec fn store_queued(pre: App, path: Seq<char>, post: App) -> bool {
    &&& post == (App { pending_store: post.pending_store, ..pre })
    &&& opt_text(post.pending_store) == Some(path)
}

/// The path behind the sidebar's cursor.
pub open spec fn cursor_path(app: App) -> Option<Seq<char>> {
    path_behind(app.repo_list(), row_under_cursor(app.side_rows(), app.selected_repo_row))
}

/// What pointing the task panes at the sidebar's cursor leaves: the worktree
/// under it is entered, and its store queued.
pub open spec fn followed(pre: App, post: App) -> bool {
    match cursor_path(pre) {
        Some(path) => exists|mid: App| #[trigger]
            entered(pre, path, mid) && store_queued(mid, path, post),
        None => post == pre,
    }
}

/// What putting the sidebar's cursor on a row leaves: the panes follow it.
pub open spec fn cursor_put(pre: App, to: usize, post: App) -> bool {
    exists|mid: App| #[trigger] row_moved(pre, to, mid) && followed(mid, post)
}

/// What choosing the worktree under the cursor leaves: the panes follow, and
/// the tree is looked at.
pub open spec fn worktree_chosen(pre: App, post: App) -> bool {
    exists|mid: App| #[trigger]
        followed(pre, mid) && if cursor_path(mid) is Some {
            focused(mid, Focus::Tree, post)
        } else {
            post == mid
        }
}

// ---------------------------------------------------------------------------
// Looking around
// ---------------------------------------------------------------------------

/// What a movement key does in whichever pane has focus.
pub open spec fn moved_by(pre: App, delta: int, post: App) -> bool {
    match pre.focus {
        Focus::Tree => moved(pre, delta, post),
        Focus::Detail => detail_scrolled(pre, delta, 0, post),
        Focus::Repos => cursor_put(
            pre,
            stepped(pre.side_rows(), pre.selected_repo_row, delta),
            post,
        ),
    }
}

/// What `l` or the right arrow does: opens, scrolls, or steps across. It falls
/// through to the detail only when there was nothing to open, and only with one
/// pane: with both visible, a focus jump would silently redirect the movement
/// keys.
pub open spec fn stepped_in(pre: App, post: App) -> bool {
    match pre.focus {
        Focus::Tree => if pre.chosen() is Some && has_branch(pre.nodes(), pre.chosen()->0) {
            expands(pre, post)
        } else if lone(pre) {
            focused(pre, Focus::Detail, post)
        } else {
            post == pre
        },
        Focus::Detail => detail_scrolled(pre, 0, 4, post),
        Focus::Repos => worktree_chosen(pre, post),
    }
}

/// What `h` or the left arrow does: closes, scrolls while there is anywhere to
/// go, or steps back.
pub open spec fn stepped_out(pre: App, post: App) -> bool {
    match pre.focus {
        Focus::Tree => collapses(pre, post),
        Focus::Detail => if !(!pre.wrap && pre.detail_scroll.1 > 0) && lone(pre) {
            focused(pre, Focus::Tree, post)
        } else {
            detail_scrolled(pre, 0, -4, post)
        },
        Focus::Repos => post == pre,
    }
}

/// What `g` does.
pub open spec fn went_first(pre: App, post: App) -> bool {
    match pre.focus {
        Focus::Tree => selects(pre, first_of(pre.shown()), post),
        Focus::Detail => detail_at(pre, 0, post),
        Focus::Repos => cursor_put(
            pre,
            rest_near(pre.side_rows(), pre.selected_repo_row, 0, true),
            post,
        ),
    }
}

/// What `G` does.
pub open spec fn went_last(pre: App, post: App) -> bool {
    match pre.focus {
        Focus::Tree => selects(pre, last_of(pre.shown()), post),
        Focus::Detail => detail_at(pre, detail_room(pre) as u16, post),
        Focus::Repos => cursor_put(
            pre,
            rest_near(
                pre.side_rows(),
                pre.selected_repo_row,
                less_by(pre.side_rows().len() as int, 1),
                false,
            ),
            post,
        ),
    }
}

/// What asking to quit leaves.
#[verifier::opaque]
pub open spec fn quit(pre: App, post: App) -> bool {
    post == (App { should_quit: true, ..pre })
}

/// What asking for a redraw leaves.
#[verifier::opaque]
pub open spec fn redrawn(pre: App, post: App) -> bool {
    &&& post == (App { force_redraw: true, status: post.status, ..pre })
    &&& post.status@ == "redrew the screen"@
}

/// What asking for the config leaves.
#[verifier::opaque]
pub open spec fn config_asked(pre: App, post: App) -> bool {
    post == (App { pending_config_edit: true, ..pre })
}

/// Whether an action only looks around, and so asks nothing of the outside.
pub open spec fn only_looks(action: Action) -> bool {
    match action {
        Action::Refresh | Action::Add | Action::Forget | Action::StartTask => false,
        Action::NewTask | Action::SaveRepoByPath | Action::CompleteTask => false,
        Action::RenameTask | Action::EditDescription | Action::DeleteTask => false,
        _ => true,
    }
}

/// What an action that only looks around leaves.
pub open spec fn looked(pre: App, action: Action, post: App) -> bool {
    match action {
        Action::Quit => quit(pre, post),
        Action::Redraw => redrawn(pre, post),
        Action::NextPane => focused(
            pre,
            focus_after(cycle_of(pre.repos_visible), pre.focus, true),
            post,
        ),
        Action::PrevPane => focused(
            pre,
            focus_after(cycle_of(pre.repos_visible), pre.focus, false),
            post,
        ),
        Action::FocusRepos => repos_shown(pre, post),
        Action::FocusTree => focused(pre, Focus::Tree, post),
        Action::FocusDetail => focused(pre, Focus::Detail, post),
        Action::MoveDown => moved_by(pre, 1, post),
        Action::MoveUp => moved_by(pre, -1, post),
        Action::PageDown => moved_by(pre, 10, post),
        Action::PageUp => moved_by(pre, -10, post),
        Action::Open => if pre.focus == Focus::Repos {
            worktree_chosen(pre, post)
        } else {
            focused(pre, Focus::Detail, post)
        },
        Action::StepIn => stepped_in(pre, post),
        Action::StepOut => stepped_out(pre, post),
        Action::First => went_first(pre, post),
        Action::Last => went_last(pre, post),
        Action::CollapseAll => all_collapsed(pre, post),
        Action::ExpandAll => all_expanded(pre, post),
        Action::ToggleZoom => zoomed(pre, !lone(pre), post),
        Action::ToggleWrap => wrap_toggled(pre, post),
        Action::ToggleSidebar => repos_toggled(pre, post),
        Action::CycleSort => relooked(
            pre,
            (sort_after(pre.sort), pre.sort_reversed, pre.filter),
            post,
        ),
        Action::ReverseSort => relooked(pre, (pre.sort, !pre.sort_reversed, pre.filter), post),
        Action::FilterNext => relooked(
            pre,
            (pre.sort, pre.sort_reversed, filter_after(pre.filter)),
            post,
        ),
        Action::FilterPrev => relooked(
            pre,
            (pre.sort, pre.sort_reversed, filter_before(pre.filter)),
            post,
        ),
        Action::Search => opened(pre, ModeView::Search, post),
        Action::Help => help_opened(pre, post),
        Action::EditConfig => config_asked(pre, post),
        _ => true,
    }
}

// ---------------------------------------------------------------------------
// Acting on a task or a repo
// ---------------------------------------------------------------------------

/// The selected task, where it is held.
pub open spec fn selected_in(app: App) -> Option<TaskView> {
    if app.chosen() is Some && app.held().contains_key(app.chosen()->0) {
        Some(app.held()[app.chosen()->0])
    } else {
        None
    }
}

/// What a delete dialog says.
pub open spec fn delete_warning(name: Seq<char>, kids: nat) -> Seq<char> {
    if kids > 0 {
        "\""@ + name + "\" and its "@ + decimal_of(kids) + " subtask(s) will be deleted."@
    } else {
        "\""@ + name + "\" will be deleted."@
    }
}

/// What asking for the editor leaves.
#[verifier::opaque]
pub open spec fn editor_asked(pre: App, id: Seq<char>, post: App) -> bool {
    &&& post == (App { pending_editor: post.pending_editor, ..pre })
    &&& opt_text(post.pending_editor) == Some(id)
}

/// What an action on the selected task leaves, and asks for.
pub open spec fn task_acted(
    pre: App,
    action: Action,
    t: TaskView,
    post: App,
    fx: Seq<EffectView>,
) -> bool {
    match action {
        Action::Add => {
            &&& fx == Seq::<EffectView>::empty()
            &&& opened(
                pre,
                blank_prompt(
                    "New subtask of: "@ + t.name,
                    "Name"@,
                    PendingView::CreateName { parent: Some(t.id) },
                ),
                post,
            )
        },
        Action::StartTask => {
            &&& post == pre
            &&& fx == seq![
                EffectView::Write {
                    verb: VerbView::Start { id: t.id },
                    success: "started "@ + t.name,
                },
            ]
        },
        Action::CompleteTask => {
            &&& fx == Seq::<EffectView>::empty()
            &&& opened(
                pre,
                blank_prompt(
                    "Complete: "@ + t.name,
                    "Result"@,
                    PendingView::Complete { id: t.id },
                ),
                post,
            )
        },
        Action::RenameTask => {
            &&& fx == Seq::<EffectView>::empty()
            &&& opened(
                pre,
                ModeView::Prompt(
                    PromptView {
                        title: "Rename: "@ + t.name,
                        label: "Name"@,
                        value: t.name,
                        cursor: t.name.len() as int,
                        pending: PendingView::EditName { id: t.id },
                    },
                ),
                post,
            )
        },
        Action::EditDescription => fx == Seq::<EffectView>::empty() && editor_asked(
            pre,
            t.id,
            post,
        ),
        Action::DeleteTask => {
            &&& fx == Seq::<EffectView>::empty()
            &&& opened(
                pre,
                ModeView::Confirm {
                    id: t.id,
                    message: delete_warning(t.name, kids(pre.task_list(), t.id).len()),
                },
                post,
            )
        },
        _ => true,
    }
}

/// The repo under the sidebar's cursor.
pub open spec fn cursor_repo(app: App) -> Option<int> {
    owned_by(row_under_cursor(app.side_rows(), app.selected_repo_row))
}

/// What an action that asks something of the outside, or opens a dialog,
/// leaves, and asks for.
pub open spec fn worked(pre: App, action: Action, post: App, fx: Seq<EffectView>) -> bool {
    match action {
        Action::Refresh => post == pre && fx == seq![
            EffectView::Refresh { store: pre.store_dir@ },
        ],
        Action::NewTask => {
            &&& fx == Seq::<EffectView>::empty()
            &&& opened(
                pre,
                blank_prompt("New task"@, "Name"@, PendingView::CreateName { parent: None }),
                post,
            )
        },
        Action::SaveRepoByPath => {
            &&& fx == Seq::<EffectView>::empty()
            &&& opened(
                pre,
                blank_prompt("Save a repo"@, "Path"@, PendingView::SaveRepo),
                post,
            )
        },
        Action::Forget => {
            &&& fx == Seq::<EffectView>::empty()
            &&& if pre.focus == Focus::Repos && cursor_repo(pre) is Some {
                let r = pre.repo_list()[cursor_repo(pre)->0];
                opened(
                    pre,
                    ModeView::Confirm {
                        id: "repo:"@ + r.path,
                        message: "\""@ + r.name
                            + "\" will be unregistered. Its worktrees are not touched."@,
                    },
                    post,
                )
            } else {
                post == pre
            }
        },
        _ => if action == Action::Add && pre.focus == Focus::Repos {
            post == pre && fx == seq![EffectView::SaveHere]
        } else {
            match selected_in(pre) {
                Some(t) => task_acted(pre, action, t, post, fx),
                None => post == pre && fx == Seq::<EffectView>::empty(),
            }
        },
    }
}

/// What an action leaves, and asks for.
pub open spec fn acted(pre: App, action: Action, post: App, fx: Seq<EffectView>) -> bool {
    if only_looks(action) {
        looked(pre, action, post) && fx == Seq::<EffectView>::empty()
    } else {
        worked(pre, action, post, fx)
    }
}

/// What a key does while nothing is open. A key that is not bound does nothing;
/// one that is first clears whatever the status bar said.
pub open spec fn normal_keyed(pre: App, key: KeyEvent, post: App, fx: Seq<EffectView>) -> bool {
    match meaning(key.code, key.modifiers) {
        Some(action) => exists|mid: App| #[trigger]
            said(pre, Seq::empty(), mid) && acted(mid, action, post, fx),
        None => post == pre && fx == Seq::<EffectView>::empty(),
    }
}

/// What a key does, whatever is open.
pub open spec fn keyed(pre: App, key: KeyEvent, post: App, fx: Seq<EffectView>) -> bool {
    let owing = owed(pre.pending_refresh, pre.store_dir@);
    match pre.mode@ {
        ModeView::Normal => normal_keyed(pre, key, post, fx),
        ModeView::Search => search_keyed(pre, key, post) && fx == Seq::<EffectView>::empty(),
        ModeView::Prompt(p) => prompt_keyed(pre, p, key, post, fx),
        ModeView::Confirm { id, .. } => closed(pre, post) && fx == if says_yes(key) {
            seq![confirmed(id, name_of(pre, id))] + owing
        } else {
            owing
        },
        ModeView::ForceComplete { id, result, .. } => closed(pre, post) && fx == if says_yes(key) {
            seq![
                EffectView::Write {
                    verb: VerbView::Complete { id, result, force: true },
                    success: "completed"@,
                },
            ] + owing
        } else {
            owing
        },
        ModeView::Help => help_keyed(pre, key, post, fx),
        ModeView::Error(_) => closed(pre, post) && fx == owing,
    }
}

impl App {
    fn queue_store(&mut self, path: String)
        ensures
            store_queued(*old(self), path@, *final(self)),
            old(self).wf() ==> final(self).wf(),
    {
        proof {
            reveal(store_queued);
        }
        self.pending_store = Some(path);
    }

    /// Points the task panes at whatever the sidebar cursor is on now.
    ///
    /// This is what makes the sidebar and the task tree one model rather than
    /// two that look identical: moving the tree cursor changes the detail pane
    /// on every keystroke, and moving the sidebar cursor changes the tree and
    /// detail the same way.
    pub fn follow_repo_cursor(&mut self)
        ensures
            followed(*old(self), *final(self)),
            old(self).wf() ==> final(self).wf(),
    {
        if let Some(path) = self.selected_worktree_path() {
            let ghost to = cursor_path(*self)->0;
            self.select_worktree(path.as_str());
            let ghost mid = *self;
            self.queue_store(path);
            assert(entered(*old(self), to, mid) && store_queued(mid, to, *self));
        }
    }

    fn move_repo_cursor(&mut self, delta: isize)
        ensures
            cursor_put(
                *old(self),
                stepped(old(self).side_rows(), old(self).selected_repo_row, delta as int),
                *final(self),
            ),
            old(self).wf() ==> final(self).wf(),
    {
        self.move_repo_row(delta);
        let ghost mid = *self;
        self.follow_repo_cursor();
        assert(followed(mid, *self));
    }

    /// Picks the worktree under the sidebar cursor: remembers where the cursor
    /// was in the worktree being left, queues the actual store swap, and moves
    /// to the tree -- the pane just chosen is exactly what you want next.
    pub fn select_worktree_under_cursor(&mut self)
        ensures
            worktree_chosen(*old(self), *final(self)),
            old(self).wf() ==> final(self).wf(),
    {
        self.follow_repo_cursor();
        let ghost mid = *self;
        assert(followed(*old(self), mid));
        if self.selected_worktree_path().is_some() {
            self.show_tree();
        }
    }

    fn go(&mut self, delta: isize)
        requires
            -0x8000 <= delta <= 0x7fff,
        ensures
            moved_by(*old(self), delta as int, *final(self)),
            old(self).wf() ==> final(self).wf(),
    {
        match self.focus {
            Focus::Tree => self.move_selection(delta),
            Focus::Detail => self.scroll_detail(delta as i32, 0),
            Focus::Repos => self.move_repo_cursor(delta),
        }
    }

    fn step_in(&mut self)
        ensures
            stepped_in(*old(self), *final(self)),
            old(self).wf() ==> final(self).wf(),
    {
        match self.focus {
            Focus::Tree => self.step_into_task(),
            Focus::Detail => self.scroll_detail(0, 4),
            Focus::Repos => self.select_worktree_under_cursor(),
        }
    }

    fn step_into_task(&mut self)
        requires
            old(self).focus == Focus::Tree,
        ensures
            stepped_in(*old(self), *final(self)),
            old(self).wf() ==> final(self).wf(),
    {
        proof {
            reveal(expands);
        }
        let opened_one = self.expand_selected();
        if !opened_one {
            assert(*self == *old(self));
            if self.single_pane() {
                self.show_detail();
            }
        }
    }

    fn step_out(&mut self)
        ensures
            stepped_out(*old(self), *final(self)),
            old(self).wf() ==> final(self).wf(),
    {
        match self.focus {
            Focus::Tree => self.collapse_selected(),
            Focus::Detail => {
                let can_scroll = !self.wrap && self.detail_scroll.1 > 0;
                if !can_scroll && self.single_pane() {
                    self.show_tree();
                } else {
                    self.scroll_detail(0, -4);
                }
            },
            // Nothing to step out to: the sidebar has no notion of "collapse
            // this worktree back to its repo".
            Focus::Repos => {},
        }
    }

    fn go_first(&mut self)
        ensures
            went_first(*old(self), *final(self)),
            old(self).wf() ==> final(self).wf(),
    {
        match self.focus {
            Focus::Tree => self.select_first(),
            Focus::Detail => self.detail_to_top(),
            Focus::Repos => {
                self.select_first_repo_row();
                let ghost mid = *self;
                self.follow_repo_cursor();
                assert(followed(mid, *self));
            },
        }
    }

    fn go_last(&mut self)
        ensures
            went_last(*old(self), *final(self)),
            old(self).wf() ==> final(self).wf(),
    {
        match self.focus {
            Focus::Tree => self.select_last(),
            Focus::Detail => self.detail_to_bottom(),
            Focus::Repos => {
                self.select_last_repo_row();
                let ghost mid = *self;
                self.follow_repo_cursor();
                assert(followed(mid, *self));
            },
        }
    }

    fn ask_to_quit(&mut self)
        ensures
            quit(*old(self), *final(self)),
            old(self).wf() ==> final(self).wf(),
    {
        proof {
            reveal(quit);
        }
        self.should_quit = true;
    }

    fn ask_for_redraw(&mut self)
        ensures
            redrawn(*old(self), *final(self)),
            old(self).wf() ==> final(self).wf(),
    {
        proof {
            reveal(redrawn);
        }
        self.force_redraw = true;
        self.status = "redrew the screen".to_owned();
    }

    fn ask_for_config(&mut self)
        ensures
            config_asked(*old(self), *final(self)),
            old(self).wf() ==> final(self).wf(),
    {
        proof {
            reveal(config_asked);
        }
        self.pending_config_edit = true;
    }

    /// Looks around: nothing here asks anything of the outside.
    fn look_around(&mut self, action: Action)
        requires
            only_looks(action),
        ensures
            looked(*old(self), action, *final(self)),
            old(self).wf() ==> final(self).wf(),
    {
        match action {
            Action::Quit => self.ask_to_quit(),
            Action::Redraw => self.ask_for_redraw(),
            Action::NextPane => self.cycle_focus(true),
            Action::PrevPane => self.cycle_focus(false),
            Action::FocusRepos => self.show_repos(),
            Action::FocusTree => self.show_tree(),
            Action::FocusDetail => self.show_detail(),
            // Movement drives whichever pane has focus. The action keys stay
            // global, because they always act on the selected task.
            Action::MoveDown => self.go(1),
            Action::MoveUp => self.go(-1),
            Action::PageDown => self.go(10),
            Action::PageUp => self.go(-10),
            // Enter always opens the detail -- except from the repo pane, where
            // it instead picks the worktree under the cursor.
            Action::Open => if self.focus == Focus::Repos {
                self.select_worktree_under_cursor()
            } else {
                self.show_detail()
            },
            Action::StepIn => self.step_in(),
            Action::StepOut => self.step_out(),
            Action::First => self.go_first(),
            Action::Last => self.go_last(),
            Action::CollapseAll => self.collapse_all(),
            Action::ExpandAll => self.expand_all(),
            Action::ToggleZoom => self.toggle_zoom(),
            Action::ToggleWrap => self.toggle_wrap(),
            Action::ToggleSidebar => self.toggle_repos(),
            Action::CycleSort => self.cycle_sort(),
            Action::ReverseSort => self.toggle_sort_direction(),
            Action::FilterNext => self.look((self.sort, self.sort_reversed, self.filter.next())),
            Action::FilterPrev => self.look((self.sort, self.sort_reversed, self.filter.prev())),
            Action::Search => self.open(Mode::Search),
            Action::Help => self.open_help(),
            Action::EditConfig => self.ask_for_config(),
            _ => {},
        }
    }

    fn ask_for_editor(&mut self, id: String)
        ensures
            editor_asked(*old(self), id@, *final(self)),
            old(self).wf() ==> final(self).wf(),
    {
        proof {
            reveal(editor_asked);
        }
        self.pending_editor = Some(id);
    }

    fn prompt(&mut self, title: String, label: &str, input: TextInput, pending: Pending)
        requires
            input.wf(),
        ensures
            opened(
                *old(self),
                ModeView::Prompt(
                    (PromptView {
                        title: title@,
                        label: label@,
                        value: input.value@,
                        cursor: input.cursor as int,
                        pending: pending@,
                    }),
                ),
                *final(self),
            ),
            old(self).wf() ==> final(self).wf(),
    {
        self.open(Mode::Prompt(Prompt { title, label: label.to_owned(), input, pending }));
    }

    /// How many tasks are filed directly under another.
    fn count_kids(&self, id: &str) -> (r: usize)
        ensures
            r == kids(self.task_list(), id@).len(),
    {
        let ghost all = self.task_list();
        let mut n: usize = 0;
        proof {
            reveal(Seq::filter);
        }
        for i in 0..self.tasks.len()
            invariant
                all == self.task_list(),
                n == kids(all.take(i as int), id@).len(),
                n <= i,
        {
            proof {
                lemma_kids_step(all, i as int, id@);
                assert(all[i as int] == self.tasks@[i as int]@);
            }
            if same_opt(&self.tasks[i].parent_id, id) {
                n = n + 1;
            }
        }
        assert(all.take(all.len() as int) =~= all);
        n
    }

    fn warning(&self, t: &Task) -> (r: String)
        ensures
            r@ == delete_warning(t@.name, kids(self.task_list(), t@.id).len()),
    {
        let n: usize = self.count_kids(t.id.as_str());
        if n > 0 {
            let mut out = concat3("\"", t.name.as_str(), "\" and its ");
            out.append(decimal(n as u64).as_str());
            out.append(" subtask(s) will be deleted.");
            out
        } else {
            concat3("\"", t.name.as_str(), "\" will be deleted.")
        }
    }

    fn act_on_task(&mut self, action: Action, t: Task) -> (r: Vec<Effect>)
        requires
            !only_looks(action),
        ensures
            task_acted(*old(self), action, t@, *final(self), effect_views(r@)),
            old(self).wf() ==> final(self).wf(),
    {
        match action {
            Action::Add => {
                self.prompt(
                    concat("New subtask of: ", t.name.as_str()),
                    "Name",
                    TextInput::default(),
                    Pending::CreateName { parent: Some(t.id) },
                );
                nothing()
            },
            Action::StartTask => just(
                Effect::Write {
                    success: concat("started ", t.name.as_str()),
                    verb: Verb::Start { id: t.id },
                },
            ),
            Action::CompleteTask => {
                self.prompt(
                    concat("Complete: ", t.name.as_str()),
                    "Result",
                    TextInput::default(),
                    Pending::Complete { id: t.id },
                );
                nothing()
            },
            Action::RenameTask => {
                self.prompt(
                    concat("Rename: ", t.name.as_str()),
                    "Name",
                    TextInput::new(t.name.as_str()),
                    Pending::EditName { id: t.id },
                );
                nothing()
            },
            // A single-line field cannot honestly edit a multi-line description.
            Action::EditDescription => {
                self.ask_for_editor(t.id);
                nothing()
            },
            Action::DeleteTask => {
                let message = self.warning(&t);
                self.open(Mode::Confirm { id: t.id, message });
                nothing()
            },
            _ => nothing(),
        }
    }

    /// Confirms via the delete dialog rather than a second one: a `repo:` prefix
    /// keeps them apart.
    fn ask_to_forget(&mut self)
        ensures
            worked(*old(self), Action::Forget, *final(self), Seq::empty()),
            old(self).wf() ==> final(self).wf(),
    {
        if self.focus == Focus::Repos {
            let about: Option<(String, String)> = match self.selected_repo() {
                Some(r) => Some(
                    (
                        concat("repo:", r.path.as_str()),
                        concat3(
                            "\"",
                            r.name.as_str(),
                            "\" will be unregistered. Its worktrees are not touched.",
                        ),
                    ),
                ),
                None => None,
            };
            if let Some((id, message)) = about {
                self.open(Mode::Confirm { id, message });
            }
        }
    }

    fn work(&mut self, action: Action) -> (r: Vec<Effect>)
        requires
            !only_looks(action),
        ensures
            worked(*old(self), action, *final(self), effect_views(r@)),
            old(self).wf() ==> final(self).wf(),
    {
        match action {
            Action::Refresh => just(Effect::Refresh { store: self.store_dir.clone() }),
            Action::NewTask => {
                self.prompt(
                    "New task".to_owned(),
                    "Name",
                    TextInput::default(),
                    Pending::CreateName { parent: None },
                );
                nothing()
            },
            Action::SaveRepoByPath => {
                self.prompt(
                    "Save a repo".to_owned(),
                    "Path",
                    TextInput::default(),
                    Pending::SaveRepo,
                );
                nothing()
            },
            Action::Forget => {
                self.ask_to_forget();
                nothing()
            },
            _ => {
                // `a` is the one key whose *verb* changes with the pane rather
                // than just its target: a subtask in the tree, a registration in
                // the sidebar.
                if action == Action::Add && self.focus == Focus::Repos {
                    return just(Effect::SaveHere);
                }
                match self.selected_copy() {
                    Some(t) => self.act_on_task(action, t),
                    None => nothing(),
                }
            },
        }
    }

    fn selected_copy(&self) -> (r: Option<Task>)
        ensures
            match (r, selected_in(*self)) {
                (Some(t), Some(v)) => t@ == v,
                (None, None) => true,
                _ => false,
            },
    {
        proof {
            if self.chosen() is Some {
                let id = self.chosen()->0;
                assert(self.held().contains_key(id) == self.by_id@.contains_key(id));
            }
        }
        match self.selected_task() {
            Some(t) => Some(t.clone()),
            None => None,
        }
    }

    /// Does what an action means.
    pub fn act(&mut self, action: Action) -> (r: Vec<Effect>)
        ensures
            acted(*old(self), action, *final(self), effect_views(r@)),
            old(self).wf() ==> final(self).wf(),
    {
        if looks_only(action) {
            self.look_around(action);
            nothing()
        } else {
            self.work(action)
        }
    }

    /// A key while nothing is open.
    pub fn handle_normal(&mut self, key: KeyEvent) -> (r: Vec<Effect>)
        ensures
            normal_keyed(*old(self), key, *final(self), effect_views(r@)),
            old(self).wf() ==> final(self).wf(),
    {
        match action_for(&key) {
            Some(action) => {
                // Clear any transient status as soon as the user does something
                // else.
                let ghost pre = *self;
                self.clear_status();
                let ghost mid = *self;
                let fx = self.act(action);
                assert(said(pre, Seq::empty(), mid));
                fx
            },
            None => nothing(),
        }
    }

    fn clear_status(&mut self)
        ensures
            said(*old(self), Seq::empty(), *final(self)),
            old(self).wf() ==> final(self).wf(),
    {
        let blank = String::new();
        self.say(blank.as_str());
    }

    /// A key, whatever is open.
    pub fn handle_key(&mut self, key: KeyEvent) -> (r: Vec<Effect>)
        requires
            old(self).wf(),
        ensures
            keyed(*old(self), key, *final(self), effect_views(r@)),
            final(self).wf(),
    {
        proof {
            reveal(crate::app::fits);
        }
        match self.mode.clone() {
            Mode::Normal => self.handle_normal(key),
            Mode::Search => {
                self.handle_search(key);
                nothing()
            },
            Mode::Prompt(p) => self.handle_prompt(key, p),
            Mode::Confirm { id, .. } => {
                if confirms(&key) {
                    let e = self.confirm(id);
                    let rest = self.close_modal();
                    first_then(e, rest)
                } else {
                    self.close_modal()
                }
            },
            Mode::ForceComplete { id, result, .. } => {
                let rest = self.close_modal();
                if confirms(&key) {
                    first_then(
                        Effect::Write {
                            verb: Verb::Complete { id, result, force: true },
                            success: "completed".to_owned(),
                        },
                        rest,
                    )
                } else {
                    rest
                }
            },
            Mode::Help => self.handle_help(key),
            Mode::Error(_) => self.close_modal(),
        }
    }
}

fn looks_only(action: Action) -> (r: bool)
    ensures
        r == only_looks(action),
{
    match action {
        Action::Refresh => false,
        Action::Add => false,
        Action::Forget => false,
        Action::StartTask => false,
        Action::NewTask => false,
        Action::SaveRepoByPath => false,
        Action::CompleteTask => false,
        Action::RenameTask => false,
        Action::EditDescription => false,
        Action::DeleteTask => false,
        _ => true,
    }
}

// ---------------------------------------------------------------------------
// What the keys promise
// ---------------------------------------------------------------------------

/// Whether an effect takes something away: a task, or a saved repo.
pub open spec fn takes_away(e: EffectView) -> bool {
    match e {
        EffectView::Forget { .. } => true,
        EffectView::Write { verb, .. } => verb is Delete,
        _ => false,
    }
}

/// Nothing is deleted or forgotten unless the dialog that names it is open and
/// the key says yes to it.
pub proof fn law_nothing_is_taken_away_unasked(
    pre: App,
    key: KeyEvent,
    post: App,
    fx: Seq<EffectView>,
    i: int,
)
    requires
        keyed(pre, key, post, fx),
        0 <= i < fx.len(),
        takes_away(fx[i]),
    ensures
        pre.mode@ is Confirm,
        says_yes(key),
        fx[i] == confirmed(pre.mode@->Confirm_id, name_of(pre, pre.mode@->Confirm_id)),
{
}

/// Whether an action turns one of the settings a config file gives starting
/// values for.
pub open spec fn turns_a_setting(action: Action) -> bool {
    match action {
        Action::ToggleWrap | Action::CycleSort | Action::ReverseSort => true,
        Action::FilterNext | Action::FilterPrev => true,
        _ => false,
    }
}

/// Turning a setting changes the current run alone: nothing is asked of the
/// outside, and neither the tasks nor the saved repos change.
pub proof fn law_settings_are_never_written_back(
    pre: App,
    action: Action,
    post: App,
    fx: Seq<EffectView>,
)
    requires
        turns_a_setting(action),
        acted(pre, action, post, fx),
    ensures
        fx.len() == 0,
        post.tasks == pre.tasks,
        post.registry == pre.registry,
        post.pending_config_edit == pre.pending_config_edit,
{
    reveal(wrap_toggled);
    reveal(relooked);
    reveal(rebuilt_around);
    reveal(selects);
}

/// The keys that act on a task act on the one selected, and ask for nothing
/// else: `s` starts it, `d` asks before deleting it, `r` offers its own name for
/// change, `c` asks for its result, `a` for the name of a task below it, and `e`
/// opens it in the editor. `n` asks for the name of a task below nothing.
pub proof fn law_the_task_keys_act_on_the_selected_task(
    pre: App,
    key: KeyEvent,
    post: App,
    fx: Seq<EffectView>,
    t: TaskView,
)
    requires
        keyed(pre, key, post, fx),
        pre.mode is Normal,
        pre.focus != Focus::Repos,
        pre.chosen() == Some(t.id),
        pre.held().contains_key(t.id),
        pre.held()[t.id] == t,
        key.modifiers == crate::keys::bare(),
    ensures
        key.code == KeyCode::Char('s') ==> fx.len() == 1 && fx[0] is Write && fx[0]->verb
            == (VerbView::Start { id: t.id }),
        key.code == KeyCode::Char('d') ==> fx.len() == 0 && post.mode@ is Confirm
            && post.mode@->Confirm_id == t.id,
        key.code == KeyCode::Char('r') ==> fx.len() == 0 && post.mode@ is Prompt
            && post.mode@->Prompt_0.value == t.name && post.mode@->Prompt_0.pending
            == (PendingView::EditName { id: t.id }),
        key.code == KeyCode::Char('c') ==> fx.len() == 0 && post.mode@ is Prompt
            && post.mode@->Prompt_0.value.len() == 0 && post.mode@->Prompt_0.pending
            == (PendingView::Complete { id: t.id }),
        key.code == KeyCode::Char('a') ==> fx.len() == 0 && post.mode@ is Prompt
            && post.mode@->Prompt_0.value.len() == 0 && post.mode@->Prompt_0.pending
            == (PendingView::CreateName { parent: Some(t.id) }),
        key.code == KeyCode::Char('n') ==> fx.len() == 0 && post.mode@ is Prompt
            && post.mode@->Prompt_0.pending == (PendingView::CreateName { parent: None }),
        key.code == KeyCode::Char('e') ==> fx.len() == 0 && opt_text(post.pending_editor) == Some(
            t.id,
        ),
        post.tasks == pre.tasks || key.code != KeyCode::Char('s'),
{
    law_every_action_has_its_keys(key.code);
    reveal(said);
    reveal(opened);
    reveal(editor_asked);
    assert(meaning(key.code, key.modifiers) == meaning(key.code, crate::keys::bare()));
    if key.code == KeyCode::Char('s') || key.code == KeyCode::Char('d') || key.code
        == KeyCode::Char('r') || key.code == KeyCode::Char('c') || key.code == KeyCode::Char('a')
        || key.code == KeyCode::Char('n') || key.code == KeyCode::Char('e') {
        let action = meaning(key.code, key.modifiers)->0;
        let mid = choose|mid: App| #[trigger]
            said(pre, Seq::empty(), mid) && acted(mid, action, post, fx);
        assert(mid.chosen() == pre.chosen() && mid.held() == pre.held() && mid.focus == pre.focus);
    }
}

/// Moving by a page is moving by ten, up is down the other way round, and the
/// first and the last row are where `g` and `G` go: in the tree, all of it.
pub proof fn law_the_movement_keys_move_by_rows(
    pre: App,
    action: Action,
    post: App,
    fx: Seq<EffectView>,
    i: int,
)
    requires
        acted(pre, action, post, fx),
        pre.focus == Focus::Tree,
        pre.shown().no_duplicates(),
        0 <= i < pre.shown().len(),
        pre.chosen() == Some(pre.shown()[i]),
    ensures
        action == Action::MoveDown && i + 1 < pre.shown().len() ==> post.chosen() == Some(
            pre.shown()[i + 1],
        ),
        action == Action::MoveUp && i > 0 ==> post.chosen() == Some(pre.shown()[i - 1]),
        action == Action::PageDown && i + 10 < pre.shown().len() ==> post.chosen() == Some(
            pre.shown()[i + 10],
        ),
        action == Action::PageUp && i >= 10 ==> post.chosen() == Some(pre.shown()[i - 10]),
        action == Action::First ==> post.chosen() == Some(pre.shown()[0]),
        action == Action::Last ==> post.chosen() == Some(pre.shown().last()),
        only_looks(action) ==> fx.len() == 0,
{
    reveal(selects);
    if action == Action::MoveDown {
        law_moving_steps_along_the_rows(pre, 1, post, i);
    }
    if action == Action::MoveUp {
        law_moving_steps_along_the_rows(pre, -1, post, i);
    }
    if action == Action::PageDown {
        law_moving_steps_along_the_rows(pre, 10, post, i);
    }
    if action == Action::PageUp {
        law_moving_steps_along_the_rows(pre, -10, post, i);
    }
}

/// The keys that change what is shown change that alone: `o` and `O` the order,
/// `f` and `F` the filter, `w` the wrapping, `z` how many panes there are, `b`
/// whether the sidebar is one of them.
pub proof fn law_each_toggle_turns_one_thing(
    pre: App,
    action: Action,
    post: App,
    fx: Seq<EffectView>,
)
    requires
        acted(pre, action, post, fx),
    ensures
        action == Action::CycleSort ==> post.sort == sort_after(pre.sort) && post.sort_reversed
            == pre.sort_reversed && post.filter == pre.filter,
        action == Action::ReverseSort ==> post.sort == pre.sort && post.sort_reversed
            == !pre.sort_reversed && post.filter == pre.filter,
        action == Action::FilterNext ==> post.filter == filter_after(pre.filter) && post.sort
            == pre.sort && filter_before(post.filter) == pre.filter,
        action == Action::FilterPrev ==> post.filter == filter_before(pre.filter) && post.sort
            == pre.sort && filter_after(post.filter) == pre.filter,
        action == Action::ToggleWrap ==> post.wrap == !pre.wrap && post.zoom == pre.zoom,
        action == Action::ToggleZoom ==> post.zoom == Some(!lone(pre)) && post.wrap == pre.wrap,
        action == Action::ToggleSidebar ==> post.repos_visible == !pre.repos_visible,
        action == Action::FocusRepos ==> post.focus == Focus::Repos && post.repos_visible,
        action == Action::FocusTree ==> post.focus == Focus::Tree && post.repos_visible
            == pre.repos_visible,
        action == Action::FocusDetail ==> post.focus == Focus::Detail,
        action == Action::Search ==> post.mode is Search,
        action == Action::Help ==> post.mode is Help && post.help_scroll == 0,
        action == Action::Quit ==> post.should_quit,
{
    if turns_a_setting(action) {
        reveal(relooked);
        reveal(rebuilt_around);
        reveal(selects);
        reveal(wrap_toggled);
    } else if action == Action::ToggleZoom {
        reveal(zoomed);
    } else if action == Action::ToggleSidebar {
        reveal(repos_toggled);
    } else if action == Action::FocusRepos {
        reveal(repos_shown);
    } else if action == Action::FocusTree || action == Action::FocusDetail {
        reveal(focused);
    } else if action == Action::Search {
        reveal(opened);
    } else if action == Action::Help {
        reveal(help_opened);
    } else if action == Action::Quit {
        reveal(quit);
    }
}

/// Wherever the sidebar's cursor is put, the panes follow: the worktree of the
/// row under it is entered, and its store asked for.
pub proof fn law_the_panes_follow_the_sidebar(pre: App, to: usize, post: App, path: Seq<char>)
    requires
        cursor_put(pre, to, post),
        path_behind(pre.repo_list(), row_under_cursor(pre.side_rows(), to)) == Some(path),
    ensures
        post.selected_repo_row == to,
        opt_text(post.pending_store) == Some(path),
        opt_text(post.selected_worktree) == Some(path),
        post.focus == pre.focus && post.repos == pre.repos,
{
    reveal(row_moved);
    reveal(store_queued);
    reveal(entered);
    reveal(selects);
}

/// The actions that are about no task: refreshing reads the store again, a new
/// task and a path to save are asked for in empty prompts, and in the sidebar
/// adding saves the launch repo and forgetting asks about the repo under the
/// cursor, by its path.
pub proof fn law_the_other_actions_do_what_they_say(
    pre: App,
    action: Action,
    post: App,
    fx: Seq<EffectView>,
    r: int,
)
    requires
        acted(pre, action, post, fx),
    ensures
        action == Action::Refresh ==> post == pre && fx.len() == 1 && fx[0] == (
        EffectView::Refresh { store: pre.store_dir@ }),
        action == Action::NewTask ==> fx.len() == 0 && post.mode@ is Prompt
            && post.mode@->Prompt_0.value.len() == 0 && post.mode@->Prompt_0.pending == (
        PendingView::CreateName { parent: None }),
        action == Action::SaveRepoByPath ==> fx.len() == 0 && post.mode@ is Prompt
            && post.mode@->Prompt_0.value.len() == 0 && post.mode@->Prompt_0.pending
            == PendingView::SaveRepo,
        action == Action::Add && pre.focus == Focus::Repos ==> post == pre && fx.len() == 1 && fx[0]
            == EffectView::SaveHere,
        action == Action::Forget && pre.focus != Focus::Repos ==> post == pre && fx.len() == 0,
        action == Action::Forget && pre.focus == Focus::Repos && owned_by(
            row_under_cursor(pre.side_rows(), pre.selected_repo_row),
        ) == Some(r) ==> fx.len() == 0 && post.mode@ is Confirm && post.mode@->Confirm_id
            == "repo:"@ + pre.repo_list()[r].path && post.repos == pre.repos && post.registry
            == pre.registry,
        action == Action::EditConfig ==> post.pending_config_edit && fx.len() == 0,
        action == Action::Redraw ==> fx.len() == 0 && post.tree == pre.tree && post.selected
            == pre.selected,
{
    if action == Action::Refresh || action == Action::Add {
    } else {
        reveal(opened);
        reveal(config_asked);
        reveal(redrawn);
    }
}

/// What is about to be deleted is named, with how many tasks are filed directly
/// under it.
pub proof fn law_a_deletion_says_what_goes(
    pre: App,
    post: App,
    fx: Seq<EffectView>,
    t: TaskView,
)
    requires
        acted(pre, Action::DeleteTask, post, fx),
        pre.chosen() == Some(t.id),
        pre.held().contains_key(t.id),
        pre.held()[t.id] == t,
    ensures
        ({
            let n = pre.task_list().filter(|x: TaskView| x.parent_id == Some(t.id)).len();
            &&& post.mode@ is Confirm && post.mode@->Confirm_id == t.id
            &&& n == 0 ==> post.mode@->Confirm_message == "\""@ + t.name + "\" will be deleted."@
            &&& n > 0 ==> post.mode@->Confirm_message == "\""@ + t.name + "\" and its "@ + decimal_of(n)
                + " subtask(s) will be deleted."@
        }),
{
    reveal(opened);
    let p = |x: TaskView| x.parent_id == Some(t.id);
    assert(p =~= crate::tree::child_of(t.id));
}

/// Stepping in opens a branch, and from one that is open goes to the row below
/// it; on a leaf it goes to the detail where that is the only pane there is room
/// for, and else does nothing. Opening goes to the detail, or from the sidebar
/// to the tree of what is chosen there.
pub proof fn law_stepping_in_goes_deeper(
    pre: App,
    action: Action,
    post: App,
    fx: Seq<EffectView>,
    path: Seq<char>,
    i: int,
)
    requires
        acted(pre, action, post, fx),
    ensures
        action == Action::StepIn && pre.focus == Focus::Tree && pre.chosen() is Some && has_branch(
            pre.nodes(),
            pre.chosen()->0,
        ) && !pre.expanded@.contains(pre.chosen()->0) ==> post.expanded@ == pre.expanded@.insert(
            pre.chosen()->0,
        ) && post.selected == pre.selected && post.focus == Focus::Tree,
        action == Action::StepIn && pre.focus == Focus::Tree && pre.chosen() is Some && has_branch(
            pre.nodes(),
            pre.chosen()->0,
        ) && pre.expanded@.contains(pre.chosen()->0) && pre.shown().no_duplicates() && 0 <= i
            < pre.shown().len() - 1 && pre.shown()[i] == pre.chosen()->0 ==> post.chosen() == Some(
            pre.shown()[i + 1],
        ) && post.expanded == pre.expanded,
        action == Action::StepIn && pre.focus == Focus::Tree && !(pre.chosen() is Some
            && has_branch(pre.nodes(), pre.chosen()->0)) ==> post.expanded == pre.expanded
            && post.selected == pre.selected && post.focus == (if lone(pre) {
            Focus::Detail
        } else {
            Focus::Tree
        }),
        action == Action::Open && pre.focus != Focus::Repos ==> post.focus == Focus::Detail
            && post.selected == pre.selected && post.expanded == pre.expanded,
        (action == Action::Open || action == Action::StepIn) && pre.focus == Focus::Repos
            && path_behind(
            pre.repo_list(),
            row_under_cursor(pre.side_rows(), pre.selected_repo_row),
        ) == Some(path) ==> post.focus == Focus::Tree && opt_text(post.pending_store) == Some(path)
            && opt_text(post.selected_worktree) == Some(path),
        action == Action::StepOut && pre.focus == Focus::Repos ==> post == pre,
{
    if (action == Action::Open || action == Action::StepIn) && pre.focus == Focus::Repos {
        reveal(entered);
        reveal(store_queued);
        reveal(focused);
        reveal(selects);
    } else {
        reveal(expands);
        reveal(focused);
        if action == Action::StepIn && pre.focus == Focus::Tree && pre.chosen() is Some
            && has_branch(pre.nodes(), pre.chosen()->0) && pre.expanded@.contains(pre.chosen()->0)
            && pre.shown().no_duplicates() && 0 <= i < pre.shown().len() - 1 && pre.shown()[i]
            == pre.chosen()->0 {
            law_moving_steps_along_the_rows(pre, 1, post, i);
        }
    }
}

/// Stepping out of the detail scrolls it back first, where it is scrolled
/// sideways; at its edge it goes back to the tree, where that is the only other
/// pane there is room for.
pub proof fn law_stepping_out_of_the_detail_goes_back(pre: App, post: App, fx: Seq<EffectView>)
    requires
        acted(pre, Action::StepOut, post, fx),
        pre.focus == Focus::Detail,
    ensures
        lone(pre) && (pre.wrap || pre.detail_scroll.1 == 0) ==> post.focus == Focus::Tree
            && post.detail_scroll == pre.detail_scroll,
        !pre.wrap && pre.detail_scroll.1 >= 4 ==> post.focus == Focus::Detail
            && post.detail_scroll.1 == pre.detail_scroll.1 - 4,
        !pre.wrap && 0 < pre.detail_scroll.1 < 4 ==> post.focus == Focus::Detail
            && post.detail_scroll.1 == 0,
        !lone(pre) ==> post.focus == Focus::Detail,
        post.selected == pre.selected && post.expanded == pre.expanded,
{
    reveal(focused);
    reveal(detail_scrolled);
}

/// In the detail the movement keys scroll by lines, and the first and the last
/// go to its ends.
pub proof fn law_the_movement_keys_scroll_the_detail(
    pre: App,
    action: Action,
    post: App,
    fx: Seq<EffectView>,
)
    requires
        acted(pre, action, post, fx),
        pre.focus == Focus::Detail,
        pre.detail_scroll.0 + pre.detail_viewport_height <= pre.detail_content_height,
    ensures
        ({
            let room = pre.detail_content_height - pre.detail_viewport_height;
            let y = pre.detail_scroll.0;
            &&& action == Action::MoveDown && y < room ==> post.detail_scroll.0 == y + 1
            &&& action == Action::MoveUp && y > 0 ==> post.detail_scroll.0 == y - 1
            &&& action == Action::PageDown && y + 10 <= room ==> post.detail_scroll.0 == y + 10
            &&& action == Action::PageUp && y >= 10 ==> post.detail_scroll.0 == y - 10
            &&& action == Action::First ==> post.detail_scroll.0 == 0
            &&& action == Action::Last ==> post.detail_scroll.0 == room
            &&& action == Action::StepIn && !pre.wrap && pre.detail_scroll.1 + 4 < 65536
                ==> post.detail_scroll.1 == pre.detail_scroll.1 + 4
        }),
        action == Action::MoveDown || action == Action::MoveUp || action == Action::First || action
            == Action::Last || action == Action::PageDown || action == Action::PageUp
            ==> post.selected == pre.selected && post.focus == Focus::Detail,
{
    reveal(detail_scrolled);
    reveal(detail_at);
}

/// In the sidebar the movement keys move its cursor, from one row it can rest on
/// to the next, and to the first and the last of them.
pub proof fn law_the_movement_keys_move_the_sidebars_cursor(
    pre: App,
    action: Action,
    post: App,
    fx: Seq<EffectView>,
    to: int,
)
    requires
        acted(pre, action, post, fx),
        pre.focus == Focus::Repos,
        pre.selected_repo_row < pre.side_rows().len() <= usize::MAX,
        0 <= to < pre.side_rows().len(),
        can_rest(pre.side_rows()[to]),
    ensures
        action == Action::MoveDown && pre.selected_repo_row < to && (forall|k: int|
            pre.selected_repo_row < k < to ==> !can_rest(#[trigger] pre.side_rows()[k]))
            ==> post.selected_repo_row == to,
        action == Action::MoveUp && to < pre.selected_repo_row && (forall|k: int|
            to < k < pre.selected_repo_row ==> !can_rest(#[trigger] pre.side_rows()[k]))
            ==> post.selected_repo_row == to,
        action == Action::First && (forall|k: int|
            0 <= k < to ==> !can_rest(#[trigger] pre.side_rows()[k])) ==> post.selected_repo_row
            == to,
        action == Action::Last && (forall|k: int|
            to < k < pre.side_rows().len() ==> !can_rest(#[trigger] pre.side_rows()[k]))
            ==> post.selected_repo_row == to,
{
    let rows = pre.side_rows();
    let at = pre.selected_repo_row;
    if action == Action::MoveDown && at < to && (forall|k: int|
        at < k < to ==> !can_rest(#[trigger] rows[k])) {
        law_a_step_goes_to_the_row_it_names(rows, at, 1, to);
        lemma_the_cursor_is_put(pre, stepped(rows, at, 1), post);
    }
    if action == Action::MoveUp && to < at && (forall|k: int|
        to < k < at ==> !can_rest(#[trigger] rows[k])) {
        law_a_step_goes_to_the_row_it_names(rows, at, -1, to);
        lemma_the_cursor_is_put(pre, stepped(rows, at, -1), post);
    }
    if action == Action::First {
        law_the_ends_of_the_sidebar(rows, at, to);
        lemma_the_cursor_is_put(pre, rest_near(rows, at, 0, true), post);
    }
    if action == Action::Last {
        law_the_ends_of_the_sidebar(rows, at, to);
        lemma_the_cursor_is_put(pre, rest_near(rows, at, rows.len() - 1, false), post);
    }
}

proof fn lemma_the_cursor_is_put(pre: App, to: usize, post: App)
    requires
        cursor_put(pre, to, post),
    ensures
        post.selected_repo_row == to,
{
    reveal(row_moved);
    reveal(store_queued);
    reveal(entered);
    reveal(selects);
}

} // verus!
