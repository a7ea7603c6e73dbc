//! The decisions of the checklist screen: what each key does to the task
//! list, the selection and the input line, and what the screen must do
//! next (save, quit, list the day files, open one).
use vstd::prelude::*;

use crate::storage::{titles_clean, views};
use crate::task::{lemma_next_cycle, next_of, Status, Task, TaskView};
use crate::view::InputMode;
use crate::text::{lemma_trimmed_idempotent, pop_char, push_char, trim, trimmed};

verus! {

/// A key press, as the screen reads it.
#[derive(Debug, Clone, Copy, PartialEq, Eq, Structural)]
pub enum Key {
    Up,
    Down,
    Enter,
    Esc,
    Backspace,
    /// A character key, with whatever modifiers, except Control-C.
    Char(char),
    /// The key `c` with Control and no other modifier.
    CtrlC,
    /// Any other key.
    Other,
}

/// What the screen must do after a key.
#[derive(Debug, Clone, Copy, PartialEq, Eq, Structural)]
pub enum Action {
    /// Nothing but draw again.
    Stay,
    /// Write the task list to the current day file.
    Save,
    /// Leave.
    Quit,
    /// List the day files and hand their number to `open_history`.
    ListFiles,
    /// Load the day file at this place of the history and hand its tasks to
    /// `replace_tasks`.
    Open(usize),
}

/// What the screen is doing.
pub enum Mode {
    /// Moving through the list.
    Browse,
    /// Typing the title of a new task.
    Adding(String),
    /// Typing a new title for the selected task.
    Editing(String),
    /// Choosing one of `count` day files; `cursor` is the one shown.
    History { count: usize, cursor: usize },
}

/// The abstract state of the screen's mode.
pub enum ModeView {
    Browse,
    Adding(Seq<char>),
    Editing(Seq<char>),
    History(nat, nat),
}

impl View for Mode {
    type V = ModeView;

    open spec fn view(&self) -> ModeView {
        match self {
            Mode::Browse => ModeView::Browse,
            Mode::Adding(buf) => ModeView::Adding(buf@),
            Mode::Editing(buf) => ModeView::Editing(buf@),
            Mode::History { count, cursor } => ModeView::History(*count as nat, *cursor as nat),
        }
    }
}

/// The abstract state of the screen.
pub struct SessionView {
    pub tasks: Seq<TaskView>,
    pub selected: nat,
    pub mode: ModeView,
}

/// The selection points at a task, or is 0 when there is none; the task
/// being edited exists; the history cursor points at a file, or is 0 when
/// there is none.
pub open spec fn session_wf(s: SessionView) -> bool {
    &&& (s.selected < s.tasks.len() || (s.tasks.len() == 0 && s.selected == 0))
    &&& (s.mode is Editing ==> s.selected < s.tasks.len())
    &&& (s.mode matches ModeView::History(count, cursor) ==> cursor < count || (count == 0
        && cursor == 0))
}

/// Back on the list, a selection past the end moves to the last task.
pub open spec fn clamp(s: SessionView) -> SessionView {
    if s.tasks.len() > 0 && s.selected >= s.tasks.len() {
        SessionView { selected: (s.tasks.len() - 1) as nat, ..s }
    } else {
        s
    }
}

/// `k` or the up arrow: the task above, if there is one.
pub open spec fn move_up(s: SessionView) -> (SessionView, Action) {
    if s.tasks.len() > 0 && s.selected > 0 {
        (SessionView { selected: (s.selected - 1) as nat, ..s }, Action::Stay)
    } else {
        (s, Action::Stay)
    }
}

/// `j` or the down arrow: the task below, if there is one.
pub open spec fn move_down(s: SessionView) -> (SessionView, Action) {
    if s.tasks.len() > 0 && s.selected + 1 < s.tasks.len() {
        (SessionView { selected: s.selected + 1, ..s }, Action::Stay)
    } else {
        (s, Action::Stay)
    }
}

/// Space: the selected task moves to its next status, and the list is saved.
pub open spec fn toggle(s: SessionView) -> (SessionView, Action) {
    if s.selected < s.tasks.len() {
        let t = s.tasks[s.selected as int];
        (
            SessionView {
                tasks: s.tasks.update(
                    s.selected as int,
                    TaskView { title: t.title, status: next_of(t.status) },
                ),
                ..s
            },
            Action::Save,
        )
    } else {
        (s, Action::Stay)
    }
}

/// `d`: the selected task goes, the selection stays in place or moves up
/// from the end, and the list is saved.
pub open spec fn delete(s: SessionView) -> (SessionView, Action) {
    if s.tasks.len() > 0 {
        let tasks = s.tasks.remove(s.selected as int);
        let selected = if s.selected > 0 && s.selected >= tasks.len() {
            (s.selected - 1) as nat
        } else {
            s.selected
        };
        (SessionView { tasks, selected, ..s }, Action::Save)
    } else {
        (s, Action::Stay)
    }
}

/// The keys of the list.
pub open spec fn browse(s: SessionView, key: Key) -> (SessionView, Action) {
    match key {
        Key::CtrlC => (s, Action::Quit),
        Key::Up => move_up(s),
        Key::Down => move_down(s),
        Key::Char(c) => {
            if c == 'q' {
                (s, Action::Quit)
            } else if c == 'k' {
                move_up(s)
            } else if c == 'j' {
                move_down(s)
            } else if c == ' ' {
                toggle(s)
            } else if c == 'a' {
                (SessionView { mode: ModeView::Adding(Seq::empty()), ..s }, Action::Stay)
            } else if c == 'd' {
                delete(s)
            } else if c == 'e' {
                if s.tasks.len() > 0 {
                    (
                        SessionView {
                            mode: ModeView::Editing(s.tasks[s.selected as int].title),
                            ..s
                        },
                        Action::Stay,
                    )
                } else {
                    (s, Action::Stay)
                }
            } else if c == 's' {
                (s, Action::Save)
            } else if c == 'h' {
                (s, Action::ListFiles)
            } else {
                (s, Action::Stay)
            }
        },
        _ => (s, Action::Stay),
    }
}

/// The input line after a key that does not end it: Backspace takes the
/// last character off, a character key adds its character.
pub open spec fn edit_buffer(buf: Seq<char>, key: Key) -> Seq<char> {
    match key {
        Key::Backspace => if buf.len() > 0 {
            buf.drop_last()
        } else {
            buf
        },
        Key::Char(c) => buf.push(c),
        Key::CtrlC => buf.push('c'),
        _ => buf,
    }
}

/// The keys while typing a new task: Enter adds a task with the trimmed
/// line as its title, selects it and saves, unless the trimmed line is
/// empty; Esc gives up.
pub open spec fn adding(s: SessionView, buf: Seq<char>, key: Key) -> (SessionView, Action) {
    match key {
        Key::Enter => {
            let title = trimmed(buf);
            if title.len() > 0 {
                (
                    SessionView {
                        tasks: s.tasks.push(TaskView { title, status: Status::Todo }),
                        selected: s.tasks.len(),
                        mode: ModeView::Browse,
                    },
                    Action::Save,
                )
            } else {
                (SessionView { mode: ModeView::Browse, ..s }, Action::Stay)
            }
        },
        Key::Esc => (SessionView { mode: ModeView::Browse, ..s }, Action::Stay),
        _ => (SessionView { mode: ModeView::Adding(edit_buffer(buf, key)), ..s }, Action::Stay),
    }
}

/// The keys while editing the selected task: Enter gives it the trimmed
/// line as its title and saves, unless the trimmed line is empty; Esc gives
/// up.
pub open spec fn editing(s: SessionView, buf: Seq<char>, key: Key) -> (SessionView, Action) {
    match key {
        Key::Enter => {
            let title = trimmed(buf);
            if title.len() > 0 {
                let t = s.tasks[s.selected as int];
                (
                    SessionView {
                        tasks: s.tasks.update(
                            s.selected as int,
                            TaskView { title, status: t.status },
                        ),
                        mode: ModeView::Browse,
                        ..s
                    },
                    Action::Save,
                )
            } else {
                (SessionView { mode: ModeView::Browse, ..s }, Action::Stay)
            }
        },
        Key::Esc => (SessionView { mode: ModeView::Browse, ..s }, Action::Stay),
        _ => (SessionView { mode: ModeView::Editing(edit_buffer(buf, key)), ..s }, Action::Stay),
    }
}

/// Keys that move up or down, in the list and in the history.
pub open spec fn is_up(key: Key) -> bool {
    key == Key::Up || key == Key::Char('k')
}

/// See `is_up`.
pub open spec fn is_down(key: Key) -> bool {
    key == Key::Down || key == Key::Char('j')
}

/// Keys that open the file shown in the history.
pub open spec fn is_open(key: Key) -> bool {
    key == Key::Enter || key == Key::Char('l')
}

/// The keys of the history, as they change the mode: move the cursor
/// within the files, open the file under it, or give up with Esc.
pub open spec fn history_keys(count: nat, cursor: nat, key: Key) -> (ModeView, Action) {
    if is_up(key) {
        let c = if cursor > 0 {
            (cursor - 1) as nat
        } else {
            cursor
        };
        (ModeView::History(count, c), Action::Stay)
    } else if is_down(key) {
        let c = if cursor + 1 < count {
            cursor + 1
        } else {
            cursor
        };
        (ModeView::History(count, c), Action::Stay)
    } else if is_open(key) {
        (ModeView::Browse, Action::Open(cursor as usize))
    } else if key == Key::Esc {
        (ModeView::Browse, Action::Stay)
    } else {
        (ModeView::History(count, cursor), Action::Stay)
    }
}

/// The keys of the history; the list stays as it is.
pub open spec fn history(s: SessionView, count: nat, cursor: nat, key: Key) -> (
    SessionView,
    Action,
) {
    let (m, a) = history_keys(count, cursor, key);
    (SessionView { mode: m, ..s }, a)
}

/// What a key does: the next state and what the screen must do. Whenever
/// the screen is back on the list, the selection is clamped first.
pub open spec fn step_spec(s: SessionView, key: Key) -> (SessionView, Action) {
    let (t, a) = match s.mode {
        ModeView::Browse => browse(s, key),
        ModeView::Adding(buf) => adding(s, buf, key),
        ModeView::Editing(buf) => editing(s, buf, key),
        ModeView::History(count, cursor) => history(s, count, cursor, key),
    };
    (
        if t.mode is Browse {
            clamp(t)
        } else {
            t
        },
        a,
    )
}

/// A key that opens a file in a history without files: there is no file
/// to open (the screen stops there).
pub open spec fn opens_missing_file(s: SessionView, key: Key) -> bool {
    s.mode matches ModeView::History(count, cursor) && count == 0 && is_open(key)
}

/// The abstract state made of its parts.
pub open spec fn state(tasks: Seq<Task>, selected: usize, mode: ModeView) -> SessionView {
    SessionView { tasks: views(tasks), selected: selected as nat, mode }
}

/// The state of the checklist screen.
pub struct Session {
    tasks: Vec<Task>,
    selected: usize,
    mode: Mode,
}

impl View for Session {
    type V = SessionView;

    closed spec fn view(&self) -> SessionView {
        SessionView {
            tasks: views(self.tasks@),
            selected: self.selected as nat,
            mode: self.mode@,
        }
    }
}

impl Session {
    #[verifier::type_invariant]
    closed spec fn inv(self) -> bool {
        session_wf(self@)
    }

    /// The screen on the list of `tasks`, with the first one selected.
    pub fn new(tasks: Vec<Task>) -> (r: Session)
        ensures
            r@ == (SessionView { tasks: views(tasks@), selected: 0, mode: ModeView::Browse }),
    {
        Session { tasks, selected: 0, mode: Mode::Browse }
    }

    /// The tasks.
    pub fn tasks(&self) -> (r: &Vec<Task>)
        ensures
            views(r@) == self@.tasks,
    {
        &self.tasks
    }

    /// The place of the selected task.
    pub fn selected(&self) -> (r: usize)
        ensures
            r == self@.selected,
    {
        self.selected
    }

    /// The mode.
    pub fn mode(&self) -> (r: &Mode)
        ensures
            r@ == self@.mode,
    {
        &self.mode
    }

    /// What is being typed, for the screen to show.
    pub fn input_mode(&self) -> (r: Option<InputMode<'_>>)
        ensures
            match self@.mode {
                ModeView::Adding(buf) => r matches Some(InputMode::Add(s)) && s@ == buf,
                ModeView::Editing(buf) => r matches Some(InputMode::Edit(i, s)) && i
                    == self@.selected && s@ == buf,
                _ => r is None,
            },
    {
        match &self.mode {
            Mode::Adding(buf) => Some(InputMode::Add(buf.as_str())),
            Mode::Editing(buf) => Some(InputMode::Edit(self.selected, buf.as_str())),
            _ => None,
        }
    }

    /// Whether `key` would open a file in a history without files.
    pub fn opens_missing_file(&self, key: Key) -> (r: bool)
        ensures
            r == opens_missing_file(self@, key),
    {
        match self.mode {
            Mode::History { count, cursor: _ } => count == 0 && (key == Key::Enter || key
                == Key::Char('l')),
            _ => false,
        }
    }

    /// What `key` does (see `step_spec`), and what the screen must do next.
    pub fn step(self, key: Key) -> (r: (Session, Action))
        requires
            !opens_missing_file(self@, key),
        ensures
            (r.0@, r.1) == step_spec(self@, key),
            session_wf(r.0@),
    {
        proof {
            use_type_invariant(&self);
        }
        let ghost before = self@;
        let Session { mut tasks, mut selected, mode } = self;
        let (mode, action) = match mode {
            Mode::Browse => browse_key(&mut tasks, &mut selected, key),
            Mode::Adding(buf) => adding_key(&mut tasks, &mut selected, buf, key),
            Mode::Editing(buf) => editing_key(&mut tasks, selected, buf, key),
            Mode::History { count, cursor } => history_key(count, cursor, key),
        };
        let back = match mode {
            Mode::Browse => true,
            _ => false,
        };
        if back && tasks.len() > 0 && selected >= tasks.len() {
            selected = tasks.len() - 1;
        }
        (Session { tasks, selected, mode }, action)
    }

    /// The history of `count` day files, the first one under the cursor.
    pub fn open_history(self, count: usize) -> (r: Session)
        ensures
            r@ == (SessionView { mode: ModeView::History(count as nat, 0), ..self@ }),
    {
        proof {
            use_type_invariant(&self);
        }
        let Session { tasks, selected, mode: _ } = self;
        Session { tasks, selected, mode: Mode::History { count, cursor: 0 } }
    }

    /// Back on the list, now that of a newly opened day file, its first task
    /// selected.
    pub fn replace_tasks(self, tasks: Vec<Task>) -> (r: Session)
        ensures
            r@ == (SessionView { tasks: views(tasks@), selected: 0, mode: ModeView::Browse }),
    {
        Session { tasks, selected: 0, mode: Mode::Browse }
    }
}


/// On a well-formed state, clamping changes nothing: the selection never
/// points past the end of the list.
pub proof fn lemma_clamp_idle(s: SessionView)
    requires
        session_wf(s),
    ensures
        clamp(s) == s,
{
}

/// Every key keeps the state well formed.
pub proof fn lemma_step_keeps_wf(s: SessionView, key: Key)
    requires
        session_wf(s),
        !opens_missing_file(s, key),
    ensures
        session_wf(step_spec(s, key).0),
{
}

/// Every key keeps the titles trimmed and non-empty.
pub proof fn lemma_step_keeps_titles(s: SessionView, key: Key)
    requires
        session_wf(s),
        titles_clean(s.tasks),
    ensures
        titles_clean(step_spec(s, key).0.tasks),
{
    let t = step_spec(s, key).0;
    match s.mode {
        ModeView::Adding(buf) => {
            lemma_trimmed_idempotent(buf);
        },
        ModeView::Editing(buf) => {
            lemma_trimmed_idempotent(buf);
        },
        _ => {},
    }
    assert forall|i: int| 0 <= i < t.tasks.len() implies trimmed(#[trigger] t.tasks[i].title)
        == t.tasks[i].title && t.tasks[i].title.len() > 0 by {
        if s.mode is Browse && key == Key::Char('d') && s.tasks.len() > 0 {
            if i >= s.selected {
                assert(t.tasks[i] == s.tasks[i + 1]);
            } else {
                assert(t.tasks[i] == s.tasks[i]);
            }
        }
    }
}

/// Space three times on the list gives back the same state: the status of
/// the selected task goes round its cycle.
pub proof fn lemma_toggle_thrice(s: SessionView)
    requires
        session_wf(s),
        s.mode is Browse,
    ensures
        ({
            let k = Key::Char(' ');
            let s3 = step_spec(step_spec(step_spec(s, k).0, k).0, k).0;
            s3.tasks == s.tasks && s3.selected == s.selected && s3.mode == s.mode
        }),
{
    let k = Key::Char(' ');
    let s1 = step_spec(s, k).0;
    let s2 = step_spec(s1, k).0;
    let s3 = step_spec(s2, k).0;
    if s.tasks.len() > 0 {
        let i = s.selected as int;
        lemma_next_cycle(s.tasks[i].status);
        assert(s3.tasks =~= s.tasks);
    }
}

/// A task added with Enter is taken away again by `d`: the list is back to
/// what it was before.
pub proof fn lemma_add_then_delete(s: SessionView, buf: Seq<char>)
    requires
        session_wf(s),
        s.mode == ModeView::Adding(buf),
        trimmed(buf).len() > 0,
    ensures
        step_spec(step_spec(s, Key::Enter).0, Key::Char('d')).0.tasks == s.tasks,
{
    let s1 = step_spec(s, Key::Enter).0;
    let s2 = step_spec(s1, Key::Char('d')).0;
    assert(s1.selected == s.tasks.len());
    assert(s2.tasks =~= s.tasks);
}

/// Whatever changes the task list is saved: a key whose step changes the
/// list asks for the list to be written.
pub proof fn lemma_changed_list_is_saved(s: SessionView, key: Key)
    requires
        session_wf(s),
    ensures
        step_spec(s, key).0.tasks != s.tasks ==> step_spec(s, key).1 == Action::Save,
{
}

/// Space on the list moves the selected task one step along its cycle,
/// `[ ]` to `[-]` to `[x]` and back to `[ ]`, keeps its title and every
/// other task, and saves.
pub proof fn lemma_space_changes_status(s: SessionView)
    requires
        session_wf(s),
        s.mode is Browse,
        s.tasks.len() > 0,
    ensures
        ({
            let (t, a) = step_spec(s, Key::Char(' '));
            let i = s.selected as int;
            &&& a == Action::Save
            &&& t.tasks.len() == s.tasks.len()
            &&& t.selected == s.selected
            &&& t.mode is Browse
            &&& t.tasks[i].title == s.tasks[i].title
            &&& (s.tasks[i].status == Status::Todo ==> t.tasks[i].status == Status::Doing)
            &&& (s.tasks[i].status == Status::Doing ==> t.tasks[i].status == Status::Done)
            &&& (s.tasks[i].status == Status::Done ==> t.tasks[i].status == Status::Todo)
            &&& forall|j: int| 0 <= j < s.tasks.len() && j != i ==> t.tasks[j] == s.tasks[j]
        }),
{
}

/// Enter while editing renames the selected task to the trimmed line, when
/// it is not blank, and keeps its status and every other task; the list is
/// saved. A blank line changes nothing.
pub proof fn lemma_edit_keeps_status(s: SessionView, buf: Seq<char>)
    requires
        session_wf(s),
        s.mode == ModeView::Editing(buf),
    ensures
        ({
            let (t, a) = step_spec(s, Key::Enter);
            let i = s.selected as int;
            &&& t.mode is Browse
            &&& t.selected == s.selected
            &&& t.tasks.len() == s.tasks.len()
            &&& t.tasks[i].status == s.tasks[i].status
            &&& forall|j: int| 0 <= j < s.tasks.len() && j != i ==> t.tasks[j] == s.tasks[j]
            &&& (trimmed(buf).len() > 0 ==> t.tasks[i].title == trimmed(buf) && a == Action::Save)
            &&& (trimmed(buf).len() == 0 ==> t.tasks == s.tasks && a == Action::Stay)
        }),
{
}

/// `d` removes the selected task and nothing else, and saves. The selection
/// stays in place, on the task that took the removed one's place, unless
/// the removed task was the last one, when it moves up by one.
pub proof fn lemma_delete_keeps_place(s: SessionView)
    requires
        session_wf(s),
        s.mode is Browse,
        s.tasks.len() > 0,
    ensures
        ({
            let (t, a) = step_spec(s, Key::Char('d'));
            let i = s.selected as int;
            &&& a == Action::Save
            &&& t.mode is Browse
            &&& t.tasks.len() == s.tasks.len() - 1
            &&& forall|j: int| 0 <= j < i ==> t.tasks[j] == s.tasks[j]
            &&& forall|j: int| i <= j < t.tasks.len() ==> t.tasks[j] == s.tasks[j + 1]
            &&& (i + 1 < s.tasks.len() ==> t.selected == s.selected)
            &&& (i + 1 == s.tasks.len() && i > 0 ==> t.selected == i - 1)
            &&& (s.tasks.len() == 1 ==> t.selected == 0)
        }),
{
}

/// Up (or `k`) and down (or `j`) move the selection by one within the list
/// and change nothing else.
pub proof fn lemma_moves_by_one(s: SessionView)
    requires
        session_wf(s),
        s.mode is Browse,
    ensures
        ({
            let (u, a) = step_spec(s, Key::Up);
            &&& a == Action::Stay && u.tasks == s.tasks && u.mode is Browse
            &&& u.selected == if s.selected > 0 {
                (s.selected - 1) as nat
            } else {
                0
            }
        }),
        step_spec(s, Key::Char('k')) == step_spec(s, Key::Up),
        ({
            let (w, a) = step_spec(s, Key::Down);
            &&& a == Action::Stay && w.tasks == s.tasks && w.mode is Browse
            &&& w.selected == if s.selected + 1 < s.tasks.len() {
                s.selected + 1
            } else {
                s.selected
            }
        }),
        step_spec(s, Key::Char('j')) == step_spec(s, Key::Down),
{
}

/// Enter after typing a title that is not blank adds a new task at the end,
/// not started, with the trimmed title, selects it, keeps every other task,
/// and saves.
pub proof fn lemma_add_appends(s: SessionView, buf: Seq<char>)
    requires
        session_wf(s),
        s.mode == ModeView::Adding(buf),
        trimmed(buf).len() > 0,
    ensures
        ({
            let (t, a) = step_spec(s, Key::Enter);
            &&& a == Action::Save
            &&& t.mode is Browse
            &&& t.tasks.len() == s.tasks.len() + 1
            &&& forall|j: int| 0 <= j < s.tasks.len() ==> t.tasks[j] == s.tasks[j]
            &&& t.tasks.last().title == trimmed(buf)
            &&& t.tasks.last().status == Status::Todo
            &&& t.selected == s.tasks.len()
        }),
{
}

/// While typing, a character key appends its character, Control-C appends
/// `c`, Backspace removes the last character; the list does not change and
/// nothing is saved.
pub proof fn lemma_typing(s: SessionView, buf: Seq<char>, c: char)
    requires
        session_wf(s),
        s.mode == ModeView::Adding(buf) || s.mode == ModeView::Editing(buf),
    ensures
        ({
            let (t, a) = step_spec(s, Key::Char(c));
            a == Action::Stay && t.tasks == s.tasks && (t.mode == ModeView::Adding(buf.push(c))
                || t.mode == ModeView::Editing(buf.push(c))) && (t.mode is Adding <==> s.mode is Adding)
        }),
        ({
            let (t, a) = step_spec(s, Key::CtrlC);
            a == Action::Stay && t.tasks == s.tasks && (t.mode == ModeView::Adding(buf.push('c'))
                || t.mode == ModeView::Editing(buf.push('c')))
        }),
        ({
            let (t, a) = step_spec(s, Key::Backspace);
            let b = if buf.len() > 0 {
                buf.take(buf.len() - 1)
            } else {
                buf
            };
            a == Action::Stay && t.tasks == s.tasks && (t.mode == ModeView::Adding(b)
                || t.mode == ModeView::Editing(b))
        }),
{
    if buf.len() > 0 {
        assert(buf.drop_last() =~= buf.take(buf.len() - 1));
    }
}

/// On the list, `q` and Control-C quit, `s` saves, `h` asks for the day
/// files, without changing anything.
pub proof fn lemma_list_commands(s: SessionView)
    requires
        session_wf(s),
        s.mode is Browse,
    ensures
        step_spec(s, Key::Char('q')) == (s, Action::Quit),
        step_spec(s, Key::CtrlC) == (s, Action::Quit),
        step_spec(s, Key::Char('s')) == (s, Action::Save),
        step_spec(s, Key::Char('h')) == (s, Action::ListFiles),
{
}

/// In the history, up and down move the cursor by one within the files, and
/// Enter (or `l`) opens the file under it and goes back to the list.
pub proof fn lemma_history_keys(s: SessionView, count: nat, cursor: nat)
    requires
        session_wf(s),
        s.mode == ModeView::History(count, cursor),
        count > 0,
    ensures
        step_spec(s, Key::Up).0.mode == ModeView::History(
            count,
            if cursor > 0 {
                (cursor - 1) as nat
            } else {
                0
            },
        ),
        step_spec(s, Key::Down).0.mode == ModeView::History(
            count,
            if cursor + 1 < count {
                cursor + 1
            } else {
                cursor
            },
        ),
        step_spec(s, Key::Enter).1 == Action::Open(cursor as usize),
        step_spec(s, Key::Enter).0.mode is Browse,
        step_spec(s, Key::Char('l')).1 == Action::Open(cursor as usize),
        step_spec(s, Key::Enter).0.tasks == s.tasks,
{
}

/// Esc leaves the input line or the history without touching the list.
pub proof fn lemma_escape_keeps_tasks(s: SessionView)
    requires
        session_wf(s),
        !(s.mode is Browse),
    ensures
        step_spec(s, Key::Esc).0.tasks == s.tasks,
        step_spec(s, Key::Esc).0.mode is Browse,
        step_spec(s, Key::Esc).1 == Action::Stay,
{
}

/// A key on the list.
fn browse_key(tasks: &mut Vec<Task>, selected: &mut usize, key: Key) -> (r: (Mode, Action))
    requires
        session_wf(state(old(tasks)@, *old(selected), ModeView::Browse)),
    ensures
        (state(final(tasks)@, *final(selected), r.0@), r.1) == browse(
            state(old(tasks)@, *old(selected), ModeView::Browse),
            key,
        ),
{
    let n = tasks.len();
    if key == Key::CtrlC || key == Key::Char('q') {
        return (Mode::Browse, Action::Quit);
    }
    if key == Key::Up || key == Key::Char('k') {
        if n > 0 && *selected > 0 {
            *selected = *selected - 1;
        }
        return (Mode::Browse, Action::Stay);
    }
    if key == Key::Down || key == Key::Char('j') {
        if n > 0 && *selected + 1 < n {
            *selected = *selected + 1;
        }
        return (Mode::Browse, Action::Stay);
    }
    if key == Key::Char(' ') {
        if *selected < n {
            let i = *selected;
            let toggled = Task { title: tasks[i].title.clone(), status: tasks[i].status.next() };
            tasks.set(i, toggled);
            assert(views(tasks@) =~= views(old(tasks)@).update(
                i as int,
                TaskView { title: old(tasks)@[i as int].title@, status: next_of(old(tasks)@[i as int].status) },
            ));
            return (Mode::Browse, Action::Save);
        }
        return (Mode::Browse, Action::Stay);
    }
    if key == Key::Char('a') {
        return (Mode::Adding(String::new()), Action::Stay);
    }
    if key == Key::Char('d') {
        if n > 0 {
            tasks.remove(*selected);
            assert(views(tasks@) =~= views(old(tasks)@).remove(*selected as int));
            if *selected > 0 && *selected >= tasks.len() {
                *selected = *selected - 1;
            }
            return (Mode::Browse, Action::Save);
        }
        return (Mode::Browse, Action::Stay);
    }
    if key == Key::Char('e') {
        if n > 0 {
            return (Mode::Editing(tasks[*selected].title.clone()), Action::Stay);
        }
        return (Mode::Browse, Action::Stay);
    }
    if key == Key::Char('s') {
        return (Mode::Browse, Action::Save);
    }
    if key == Key::Char('h') {
        return (Mode::Browse, Action::ListFiles);
    }
    (Mode::Browse, Action::Stay)
}

/// A key that changes the input line (see `edit_buffer`).
fn edit_line(buf: &mut String, key: Key)
    ensures
        final(buf)@ == edit_buffer(old(buf)@, key),
{
    match key {
        Key::Backspace => {
            pop_char(buf);
        },
        Key::Char(c) => push_char(buf, c),
        Key::CtrlC => push_char(buf, 'c'),
        _ => {},
    }
}

/// A key while typing a new task.
fn adding_key(tasks: &mut Vec<Task>, selected: &mut usize, buf: String, key: Key) -> (r: (
    Mode,
    Action,
))
    ensures
        (state(final(tasks)@, *final(selected), r.0@), r.1) == adding(
            state(old(tasks)@, *old(selected), ModeView::Adding(buf@)),
            buf@,
            key,
        ),
{
    match key {
        Key::Enter => {
            let title = trim(buf.as_str());
            if !title.is_empty() {
                tasks.push(Task::new(String::from_str(title)));
                *selected = tasks.len() - 1;
                assert(views(tasks@) =~= views(old(tasks)@).push(
                    TaskView { title: trimmed(buf@), status: Status::Todo },
                ));
                (Mode::Browse, Action::Save)
            } else {
                (Mode::Browse, Action::Stay)
            }
        },
        Key::Esc => (Mode::Browse, Action::Stay),
        _ => {
            let mut line = buf;
            edit_line(&mut line, key);
            (Mode::Adding(line), Action::Stay)
        },
    }
}

/// A key while editing the selected task.
fn editing_key(tasks: &mut Vec<Task>, selected: usize, buf: String, key: Key) -> (r: (
    Mode,
    Action,
))
    requires
        selected < old(tasks)@.len(),
    ensures
        (state(final(tasks)@, selected, r.0@), r.1) == editing(
            state(old(tasks)@, selected, ModeView::Editing(buf@)),
            buf@,
            key,
        ),
{
    match key {
        Key::Enter => {
            let title = trim(buf.as_str());
            if !title.is_empty() {
                let status = tasks[selected].status;
                tasks.set(selected, Task { title: String::from_str(title), status });
                assert(views(tasks@) =~= views(old(tasks)@).update(
                    selected as int,
                    TaskView { title: trimmed(buf@), status },
                ));
                (Mode::Browse, Action::Save)
            } else {
                (Mode::Browse, Action::Stay)
            }
        },
        Key::Esc => (Mode::Browse, Action::Stay),
        _ => {
            let mut line = buf;
            edit_line(&mut line, key);
            (Mode::Editing(line), Action::Stay)
        },
    }
}

/// A key in the history.
fn history_key(count: usize, cursor: usize, key: Key) -> (r: (Mode, Action))
    requires
        cursor < count || (count == 0 && cursor == 0),
    ensures
        (r.0@, r.1) == history_keys(count as nat, cursor as nat, key),
{
    if key == Key::Up || key == Key::Char('k') {
        let c = if cursor > 0 {
            cursor - 1
        } else {
            cursor
        };
        (Mode::History { count, cursor: c }, Action::Stay)
    } else if key == Key::Down || key == Key::Char('j') {
        let c = if cursor + 1 < count {
            cursor + 1
        } else {
            cursor
        };
        (Mode::History { count, cursor: c }, Action::Stay)
    } else if key == Key::Enter || key == Key::Char('l') {
        (Mode::Browse, Action::Open(cursor))
    } else if key == Key::Esc {
        (Mode::Browse, Action::Stay)
    } else {
        (Mode::History { count, cursor }, Action::Stay)
    }
}

} // verus!
