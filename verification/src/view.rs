//! What the checklist screen shows: the rows of the list and of the
//! history, with the tone of each part. Drawing them is the terminal's work.
use vstd::prelude::*;

use crate::task::{Status, Task, TaskView, label_of};

verus! {

/// What is being typed, and where it shows.
pub enum InputMode<'a> {
    /// The title of a new task, shown as an extra row below the list.
    Add(&'a str),
    /// A new title for the task at this place, shown in its row.
    Edit(usize, &'a str),
}

/// The colours of the screen, by role.
#[derive(Debug, Clone, Copy, PartialEq, Eq, Structural)]
pub enum Tone {
    /// A task not started: amber.
    Todo,
    /// A task under way: blue.
    Doing,
    /// A finished task: green.
    Done,
    Grey,
    DarkGrey,
    White,
}

/// The tone of a status.
pub open spec fn status_tone(s: Status) -> Tone {
    match s {
        Status::Todo => Tone::Todo,
        Status::Doing => Tone::Doing,
        Status::Done => Tone::Done,
    }
}

/// The tone of a title: that of its status, except that the title of a
/// finished task that is not selected is grey.
pub open spec fn title_tone(s: Status, selected: bool) -> Tone {
    if !selected && s == Status::Done {
        Tone::Grey
    } else {
        status_tone(s)
    }
}

/// The text being typed, followed by the cursor block.
pub open spec fn with_cursor(buf: Seq<char>) -> Seq<char> {
    buf.push('\u{258c}')
}

/// One task on the screen. A selected row shows an arrow, its marker in
/// bold and its title in bold on a dark background.
pub struct TaskRow {
    pub selected: bool,
    pub label: &'static str,
    pub label_tone: Tone,
    pub title: String,
    pub title_tone: Tone,
}

/// `row` shows the task `t`, selected or not, with the text being typed in
/// place of its title when there is some.
pub open spec fn shows_task(row: TaskRow, t: TaskView, selected: bool, typed: Option<Seq<char>>) -> bool {
    &&& row.selected == selected
    &&& row.label@ == label_of(t.status)
    &&& row.label_tone == status_tone(t.status)
    &&& row.title@ == match typed {
        Some(buf) => with_cursor(buf),
        None => t.title,
    }
    &&& row.title_tone == title_tone(t.status, selected)
}

/// Each status has its own tone: amber, blue, green; a title takes the
/// tone of its status, except that of a finished task that is not selected,
/// which is grey.
pub proof fn lemma_tones(s: Status, selected: bool)
    ensures
        s == Status::Todo ==> status_tone(s) == Tone::Todo,
        s == Status::Doing ==> status_tone(s) == Tone::Doing,
        s == Status::Done ==> status_tone(s) == Tone::Done,
        title_tone(s, selected) == Tone::Grey <==> (s == Status::Done && !selected),
        title_tone(s, selected) != Tone::Grey ==> title_tone(s, selected) == status_tone(s),
{
}

/// The tone of a status.
pub fn tone_of(s: Status) -> (r: Tone)
    ensures
        r == status_tone(s),
{
    match s {
        Status::Todo => Tone::Todo,
        Status::Doing => Tone::Doing,
        Status::Done => Tone::Done,
    }
}

/// `buf` followed by the cursor block.
pub fn cursor_text(buf: &str) -> (r: String)
    ensures
        r@ == with_cursor(buf@),
{
    let mut text = String::from_str(buf);
    proof {
        reveal_strlit("\u{258c}");
    }
    text.append("\u{258c}");
    text
}

/// The row of `task`.
pub fn task_row(task: &Task, selected: bool, title_override: Option<&str>) -> (r: TaskRow)
    ensures
        shows_task(
            r,
            task@,
            selected,
            match title_override {
                Some(buf) => Some(buf@),
                None => None,
            },
        ),
{
    let title = match title_override {
        Some(buf) => cursor_text(buf),
        None => task.title.clone(),
    };
    let label_tone = tone_of(task.status);
    let title_tone = if !selected && task.status == Status::Done {
        Tone::Grey
    } else {
        label_tone
    };
    TaskRow { selected, label: task.status.label(), label_tone, title, title_tone }
}

/// A row of the list part of the screen.
pub enum Row {
    /// The list is empty and nothing is being added: a hint to add a task.
    Empty,
    Task(TaskRow),
    /// The title of the task being added, with the cursor block.
    Input(String),
}

/// The text typed for the task at place `i`, if it is being edited.
pub open spec fn typed_at(input_mode: Option<&InputMode>, i: int) -> Option<Seq<char>> {
    match input_mode {
        Some(InputMode::Edit(idx, buf)) => if idx == i {
            Some(buf@)
        } else {
            None
        },
        _ => None,
    }
}

/// A new task is being typed.
pub open spec fn is_adding(input_mode: Option<&InputMode>) -> bool {
    input_mode matches Some(InputMode::Add(_))
}

/// The rows of the list part of the screen: a hint when there is no task
/// and none is being added; otherwise a row per task, the one at
/// `selected` selected and the one being edited showing the typed text, and
/// then the row of the task being added, if one is.
pub fn checklist_rows(tasks: &[Task], selected: usize, input_mode: Option<&InputMode>) -> (r: Vec<
    Row,
>)
    ensures
        tasks@.len() == 0 && !is_adding(input_mode) ==> r@.len() == 1 && r@[0] is Empty,
        !(tasks@.len() == 0 && !is_adding(input_mode)) ==> {
            &&& r@.len() == tasks@.len() + if is_adding(input_mode) {
                1int
            } else {
                0int
            }
            &&& forall|i: int|
                0 <= i < tasks@.len() ==> (#[trigger] r@[i] matches Row::Task(row) && shows_task(
                    row,
                    tasks@[i]@,
                    i == selected,
                    typed_at(input_mode, i),
                ))
            &&& input_mode matches Some(InputMode::Add(buf)) ==> (r@.last() matches Row::Input(
                text,
            ) && text@ == with_cursor(buf@))
        },
{
    let adding = match input_mode {
        Some(InputMode::Add(_)) => true,
        _ => false,
    };
    let mut rows: Vec<Row> = Vec::new();
    if tasks.len() == 0 && !adding {
        rows.push(Row::Empty);
        return rows;
    }
    let mut i: usize = 0;
    while i < tasks.len()
        invariant
            i <= tasks@.len(),
            rows@.len() == i,
            forall|k: int|
                0 <= k < i ==> (#[trigger] rows@[k] matches Row::Task(row) && shows_task(
                    row,
                    tasks@[k]@,
                    k == selected,
                    typed_at(input_mode, k),
                )),
        decreases tasks.len() - i,
    {
        let typed = match input_mode {
            Some(InputMode::Edit(idx, buf)) => if *idx == i {
                Some(*buf)
            } else {
                None
            },
            _ => None,
        };
        rows.push(Row::Task(task_row(&tasks[i], i == selected, typed)));
        i += 1;
    }
    match input_mode {
        Some(InputMode::Add(buf)) => {
            rows.push(Row::Input(cursor_text(buf)));
        },
        _ => {},
    }
    rows
}

/// A row of the history.
pub enum HistoryRow {
    /// There is no day file.
    Empty,
    /// The label of a day file; the selected one is highlighted.
    File { selected: bool, label: String },
}

/// The rows of the history: a notice when there is no day file, otherwise
/// a row per label, the one at `selected` highlighted.
pub fn history_rows(labels: &[String], selected: usize) -> (r: Vec<HistoryRow>)
    ensures
        labels@.len() == 0 ==> r@.len() == 1 && r@[0] is Empty,
        labels@.len() > 0 ==> r@.len() == labels@.len() && forall|i: int|
            0 <= i < labels@.len() ==> (#[trigger] r@[i] matches HistoryRow::File {
                selected: s,
                label,
            } && s == (i == selected) && label@ == labels@[i]@),
{
    let mut rows: Vec<HistoryRow> = Vec::new();
    if labels.len() == 0 {
        rows.push(HistoryRow::Empty);
        return rows;
    }
    let mut i: usize = 0;
    while i < labels.len()
        invariant
            i <= labels@.len(),
            rows@.len() == i,
            forall|k: int|
                0 <= k < i ==> (#[trigger] rows@[k] matches HistoryRow::File { selected: s, label }
                    && s == (k == selected) && label@ == labels@[k]@),
        decreases labels.len() - i,
    {
        rows.push(HistoryRow::File { selected: i == selected, label: labels[i].clone() });
        i += 1;
    }
    rows
}

} // verus!
