//! Tasks and their line format: `[ ] title`, `[-] title`, `[x] title`.
use vstd::prelude::*;
use vstd::utf8::{
    encode_scalar, encode_utf8, encode_utf8_first_scalar, encode_utf8_valid_utf8, is_char_boundary,
    pop_first_scalar,
};

use crate::text::{
    all_ws, lemma_trimmed_ends, lemma_trimmed_idempotent, lemma_trimmed_ws_around, trim, trim_end,
    trim_start, trimmed,
};

verus! {

/// Where a task stands: not started, under way, finished.
#[derive(Debug, Clone, Copy, PartialEq, Eq, Structural)]
pub enum Status {
    Todo,
    Doing,
    Done,
}

/// The status that follows `s` in the cycle Todo -> Doing -> Done -> Todo.
pub open spec fn next_of(s: Status) -> Status {
    match s {
        Status::Todo => Status::Doing,
        Status::Doing => Status::Done,
        Status::Done => Status::Todo,
    }
}

/// The three-character marker that shows `s`.
pub open spec fn label_of(s: Status) -> Seq<char> {
    match s {
        Status::Todo => seq!['[', ' ', ']'],
        Status::Doing => seq!['[', '-', ']'],
        Status::Done => seq!['[', 'x', ']'],
    }
}

impl Status {
    /// The next status in the cycle.
    pub fn next(&self) -> (r: Status)
        ensures
            r == next_of(*self),
    {
        match self {
            Status::Todo => Status::Doing,
            Status::Doing => Status::Done,
            Status::Done => Status::Todo,
        }
    }

    /// The marker of this status: `[ ]`, `[-]` or `[x]`.
    pub fn label(&self) -> (r: &'static str)
        ensures
            r@ == label_of(*self),
    {
        proof {
            reveal_strlit("[ ]");
            reveal_strlit("[-]");
            reveal_strlit("[x]");
        }
        match self {
            Status::Todo => "[ ]",
            Status::Doing => "[-]",
            Status::Done => "[x]",
        }
    }
}

/// The abstract content of a task.
pub struct TaskView {
    pub title: Seq<char>,
    pub status: Status,
}

/// One entry of the checklist.
#[derive(Debug, Clone)]
pub struct Task {
    pub title: String,
    pub status: Status,
}

impl View for Task {
    type V = TaskView;

    open spec fn view(&self) -> TaskView {
        TaskView { title: self.title@, status: self.status }
    }
}

/// The line that stores a task: its marker, a space, its title.
pub open spec fn line_of(t: TaskView) -> Seq<char> {
    label_of(t.status) + seq![' '] + t.title
}

/// The status whose marker is `m`, if any.
pub open spec fn status_of_marker(m: Seq<char>) -> Option<Status> {
    if m == label_of(Status::Todo) {
        Some(Status::Todo)
    } else if m == label_of(Status::Doing) {
        Some(Status::Doing)
    } else if m == label_of(Status::Done) {
        Some(Status::Done)
    } else {
        None
    }
}

/// What a stored line holds: once trimmed, it starts with a marker, and
/// what follows, trimmed, is a non-empty title.
pub open spec fn parse_line(line: Seq<char>) -> Option<TaskView> {
    let t = trimmed(line);
    if t.len() < 3 {
        None
    } else {
        match status_of_marker(t.take(3)) {
            None => None,
            Some(status) => {
                let title = trimmed(t.skip(3));
                if title.len() == 0 {
                    None
                } else {
                    Some(TaskView { title, status })
                }
            },
        }
    }
}

/// The marker is cut off after the first three bytes of the trimmed line;
/// a line of four bytes or more must have a character boundary there.
pub open spec fn marker_cut_ok(line: Seq<char>) -> bool {
    let bytes = encode_utf8(trimmed(line));
    bytes.len() >= 4 ==> is_char_boundary(bytes, 3)
}

impl Task {
    /// A new task, not started yet.
    pub fn new(title: String) -> (t: Task)
        ensures
            t@ == (TaskView { title: title@, status: Status::Todo }),
    {
        Task { title, status: Status::Todo }
    }

    /// Its line in a day file.
    pub fn to_line(&self) -> (r: String)
        ensures
            r@ == line_of(self@),
    {
        let mut line = String::from_str(self.status.label());
        proof {
            reveal_strlit(" ");
        }
        line.append(" ");
        line.append(self.title.as_str());
        line
    }

    /// Reads a task back from its line; `None` for a line that holds none.
    pub fn from_line(line: &str) -> (r: Option<Task>)
        requires
            marker_cut_ok(line@),
        ensures
            r is Some <==> parse_line(line@) is Some,
            r matches Some(t) ==> parse_line(line@) == Some(t@),
    {
        let line = trim(line);
        let n = line.unicode_len();
        if n < 4 {
            // Shorter than a marker, a space and one character: no title.
            proof {
                if n == 3 {
                    assert(line@.skip(3) =~= Seq::<char>::empty());
                }
            }
            return None;
        }
        let open = line.get_char(0);
        let mid = line.get_char(1);
        let close = line.get_char(2);
        let title = trim(line.substring_char(3, n));
        if title.is_empty() {
            return None;
        }
        let status = if open != '[' || close != ']' {
            return None;
        } else if mid == ' ' {
            Status::Todo
        } else if mid == '-' {
            Status::Doing
        } else if mid == 'x' {
            Status::Done
        } else {
            return None;
        };
        assert(line@.take(3) =~= seq![open, mid, close]);
        assert(line@.skip(3) =~= line@.subrange(3, n as int));
        Some(Task { title: String::from_str(title), status })
    }
}

/// The status cycle has length three: three steps come back to the start,
/// and every step changes the status.
pub proof fn lemma_next_cycle(s: Status)
    ensures
        next_of(next_of(next_of(s))) == s,
        next_of(s) != s,
{
}

/// The cycle goes from not started to under way to finished, and from
/// finished back to not started.
pub proof fn lemma_next_order(s: Status)
    ensures
        s == Status::Todo ==> next_of(s) == Status::Doing,
        s == Status::Doing ==> next_of(s) == Status::Done,
        s == Status::Done ==> next_of(s) == Status::Todo,
{
}

/// A task's line is `[`, a mark, `]`, a space and the title, where the mark
/// is a space for a task not started, `-` for one under way and `x` for a
/// finished one.
pub proof fn lemma_line_format(t: TaskView)
    ensures
        line_of(t).len() == t.title.len() + 4,
        line_of(t)[0] == '[',
        line_of(t)[2] == ']',
        line_of(t)[3] == ' ',
        line_of(t).skip(4) == t.title,
        t.status == Status::Todo ==> line_of(t)[1] == ' ',
        t.status == Status::Doing ==> line_of(t)[1] == '-',
        t.status == Status::Done ==> line_of(t)[1] == 'x',
{
    assert(line_of(t).skip(4) =~= t.title);
}

/// Each status has its own marker, and the marker reads back as it.
pub proof fn lemma_marker_read_back(s: Status)
    ensures
        status_of_marker(label_of(s)) == Some(s),
        label_of(s).len() == 3,
{
    assert(label_of(Status::Todo) != label_of(Status::Doing)) by {
        assert(label_of(Status::Todo)[1] != label_of(Status::Doing)[1]);
    }
    assert(label_of(Status::Todo) != label_of(Status::Done)) by {
        assert(label_of(Status::Todo)[1] != label_of(Status::Done)[1]);
    }
    assert(label_of(Status::Doing) != label_of(Status::Done)) by {
        assert(label_of(Status::Doing)[1] != label_of(Status::Done)[1]);
    }
}

/// In the UTF-8 encoding of `c`, the end of the encoding of each prefix of
/// `c` is a character boundary.
pub proof fn lemma_prefix_boundary(c: Seq<char>, k: int)
    requires
        0 <= k <= c.len(),
    ensures
        is_char_boundary(encode_utf8(c), encode_utf8(c.take(k)).len() as int),
    decreases k,
{
    broadcast use encode_utf8_valid_utf8;

    if k == 0 {
        assert(c.take(0) =~= Seq::<char>::empty());
    } else {
        let bytes = encode_utf8(c);
        encode_utf8_first_scalar(c);
        assert(c.take(k).drop_first() =~= c.drop_first().take(k - 1));
        assert(c.take(k)[0] == c[0]);
        assert(pop_first_scalar(bytes) =~= encode_utf8(c.drop_first()));
        lemma_prefix_boundary(c.drop_first(), k - 1);
        assert(encode_scalar(c[0] as u32).len() >= 1);
    }
}

/// A stored task reads back as itself: a task whose title is non-empty and
/// has no surrounding whitespace gives a line that `from_line` accepts and
/// turns back into the same task.
pub proof fn lemma_line_round_trip(t: TaskView)
    requires
        trimmed(t.title) == t.title,
        t.title.len() > 0,
    ensures
        parse_line(line_of(t)) == Some(t),
        marker_cut_ok(line_of(t)),
{
    let line = line_of(t);
    let label = label_of(t.status);
    lemma_trimmed_ends(t.title);
    lemma_marker_read_back(t.status);
    assert(line.last() == t.title.last());
    assert(trim_start(line) == line);
    assert(trim_end(line) == line);
    assert(trimmed(line) == line);
    assert(line.take(3) =~= label);
    assert(line.skip(3) =~= seq![' '] + t.title);
    assert((seq![' '] + t.title).drop_first() =~= t.title);
    assert(trim_start(seq![' '] + t.title) == t.title);
    assert(trimmed(line.skip(3)) == t.title);
    lemma_prefix_boundary(line, 3);
    reveal_with_fuel(encode_utf8, 4);
    assert(label.drop_first().drop_first().drop_first() =~= Seq::<char>::empty());
    assert(encode_utf8(label).len() == 3);
}

/// Whitespace around a line changes neither what it holds nor whether its
/// marker can be cut off.
pub proof fn lemma_line_ignores_surrounding_ws(a: Seq<char>, line: Seq<char>, b: Seq<char>)
    requires
        all_ws(a),
        all_ws(b),
    ensures
        parse_line(a + line + b) == parse_line(line),
        marker_cut_ok(a + line + b) == marker_cut_ok(line),
{
    lemma_trimmed_ws_around(a, line, b);
}

/// A line that holds a task has a canonical form, the task's own line: its
/// marker, a space, and the trimmed rest; that line holds the same task, and
/// its marker can always be cut off.
pub proof fn lemma_canonical_line(l: Seq<char>, t: TaskView)
    requires
        parse_line(l) == Some(t),
    ensures
        line_of(t) == trimmed(l).take(3) + seq![' '] + trimmed(trimmed(l).skip(3)),
        parse_line(line_of(t)) == Some(t),
        marker_cut_ok(line_of(t)),
{
    let m = trimmed(l).take(3);
    lemma_marker_read_back(Status::Todo);
    lemma_marker_read_back(Status::Doing);
    lemma_marker_read_back(Status::Done);
    assert(m == label_of(t.status));
    lemma_trimmed_idempotent(trimmed(l).skip(3));
    lemma_line_round_trip(t);
}

} // verus!
