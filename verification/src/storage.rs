//! The day file: the task list as text, one task per line.
use vstd::prelude::*;

use crate::task::{Task, TaskView, lemma_line_round_trip, line_of, marker_cut_ok, parse_line};
use crate::text::{
    lemma_split_append, lemma_split_push_sep, lemma_trimmed_idempotent, split, split_on, trimmed,
};

verus! {

/// The abstract contents of a task list.
pub open spec fn views(tasks: Seq<Task>) -> Seq<TaskView> {
    tasks.map_values(|t: Task| t@)
}

/// The tasks that the given lines hold, in order; lines that hold no task
/// are passed over.
pub open spec fn parse_lines(lines: Seq<Seq<char>>) -> Seq<TaskView>
    decreases lines.len(),
{
    if lines.len() == 0 {
        Seq::empty()
    } else {
        let before = parse_lines(lines.drop_last());
        match parse_line(lines.last()) {
            Some(t) => before.push(t),
            None => before,
        }
    }
}

/// The tasks that a day file holds. A line ends at `'\n'`; a `'\r'` before
/// it is whitespace and goes with the trimming, and an empty last piece
/// holds no task.
pub open spec fn parse_content(content: Seq<char>) -> Seq<TaskView> {
    parse_lines(split(content, '\n'))
}

/// Every line of the content can have its marker cut off (see
/// `marker_cut_ok`).
pub open spec fn content_cut_ok(content: Seq<char>) -> bool {
    forall|k: int|
        0 <= k < split(content, '\n').len() ==> marker_cut_ok(#[trigger] split(content, '\n')[k])
}

/// The text of a day file: each task's line followed by `'\n'`.
pub open spec fn render_lines(tasks: Seq<TaskView>) -> Seq<char>
    decreases tasks.len(),
{
    if tasks.len() == 0 {
        Seq::empty()
    } else {
        render_lines(tasks.drop_last()) + line_of(tasks.last()) + seq!['\n']
    }
}

/// A task that the day file keeps as it is: a non-empty title without
/// surrounding whitespace and without a line break.
pub open spec fn storable(t: TaskView) -> bool {
    &&& trimmed(t.title) == t.title
    &&& t.title.len() > 0
    &&& !t.title.contains('\n')
}

/// Every title is trimmed and non-empty.
pub open spec fn titles_clean(tasks: Seq<TaskView>) -> bool {
    forall|i: int|
        0 <= i < tasks.len() ==> trimmed(#[trigger] tasks[i].title) == tasks[i].title
            && tasks[i].title.len() > 0
}

/// The tasks read from lines have trimmed, non-empty titles.
pub proof fn lemma_parsed_lines_clean(lines: Seq<Seq<char>>)
    ensures
        titles_clean(parse_lines(lines)),
    decreases lines.len(),
{
    if lines.len() > 0 {
        lemma_parsed_lines_clean(lines.drop_last());
        let t = trimmed(lines.last());
        if t.len() >= 3 {
            lemma_trimmed_idempotent(t.skip(3));
        }
    }
}

/// Whatever a day file holds, the tasks read from it have trimmed, non-empty
/// titles.
pub proof fn lemma_parsed_titles_clean(content: Seq<char>)
    ensures
        titles_clean(parse_content(content)),
{
    lemma_parsed_lines_clean(split(content, '\n'));
}

/// The tasks that the text of a day file holds.
pub fn parse_tasks(content: &str) -> (r: Vec<Task>)
    requires
        content_cut_ok(content@),
    ensures
        views(r@) == parse_content(content@),
{
    let lines = split_on(content, '\n');
    let ghost pieces = split(content@, '\n');
    let mut tasks: Vec<Task> = Vec::new();
    let mut i: usize = 0;
    while i < lines.len()
        invariant
            lines.len() == pieces.len(),
            forall|k: int| 0 <= k < lines.len() ==> #[trigger] lines[k]@ == pieces[k],
            pieces == split(content@, '\n'),
            content_cut_ok(content@),
            i <= lines.len(),
            views(tasks@) == parse_lines(pieces.take(i as int)),
        decreases lines.len() - i,
    {
        assert(pieces.take(i + 1).drop_last() =~= pieces.take(i as int));
        assert(marker_cut_ok(pieces[i as int]));
        let parsed = Task::from_line(lines[i].as_str());
        match parsed {
            Some(t) => {
                tasks.push(t);
            },
            None => {},
        }
        assert(views(tasks@) =~= parse_lines(pieces.take(i + 1)));
        i += 1;
    }
    assert(pieces.take(lines.len() as int) =~= pieces);
    tasks
}

/// The text of the day file that stores `tasks`.
pub fn render_tasks(tasks: &[Task]) -> (r: String)
    ensures
        r@ == render_lines(views(tasks@)),
{
    let mut text = String::new();
    let mut i: usize = 0;
    while i < tasks.len()
        invariant
            i <= tasks.len(),
            text@ == render_lines(views(tasks@).take(i as int)),
        decreases tasks.len() - i,
    {
        let line = tasks[i].to_line();
        proof {
            reveal_strlit("\n");
        }
        text.append(line.as_str());
        text.append("\n");
        assert(views(tasks@).take(i + 1).drop_last() =~= views(tasks@).take(i as int));
        assert(text@ =~= render_lines(views(tasks@).take(i + 1)));
        i += 1;
    }
    assert(views(tasks@).take(tasks.len() as int) =~= views(tasks@));
    text
}

/// A line of a task holds no line break.
proof fn lemma_line_no_break(t: TaskView)
    requires
        !t.title.contains('\n'),
    ensures
        !line_of(t).contains('\n'),
{
    let line = line_of(t);
    if line.contains('\n') {
        let k = choose|k: int| 0 <= k < line.len() && line[k] == '\n';
        if k >= 4 {
            assert(t.title[k - 4] == '\n');
        }
    }
}

/// The lines of the text of a day file, with the empty piece after the
/// last line break.
proof fn lemma_render_split(tasks: Seq<TaskView>)
    requires
        forall|i: int| 0 <= i < tasks.len() ==> storable(#[trigger] tasks[i]),
    ensures
        split(render_lines(tasks), '\n') == tasks.map_values(|t: TaskView| line_of(t)).push(
            Seq::<char>::empty(),
        ),
    decreases tasks.len(),
{
    if tasks.len() == 0 {
        assert(split(Seq::<char>::empty(), '\n') =~= seq![Seq::<char>::empty()]);
        assert(tasks.map_values(|t: TaskView| line_of(t)) =~= Seq::<Seq<char>>::empty());
    } else {
        let init = tasks.drop_last();
        let t = tasks.last();
        assert(storable(tasks[tasks.len() - 1]));
        lemma_render_split(init);
        lemma_line_no_break(t);
        let before = render_lines(init);
        let lines = init.map_values(|t: TaskView| line_of(t));
        lemma_split_append(before, line_of(t), '\n');
        assert(Seq::<char>::empty() + line_of(t) =~= line_of(t));
        lemma_split_push_sep(before + line_of(t), '\n');
        assert((before + line_of(t)).push('\n') =~= render_lines(tasks));
        assert(tasks.map_values(|t: TaskView| line_of(t)) =~= lines.push(line_of(t)));
        assert(lines.push(Seq::<char>::empty()).update(lines.len() as int, line_of(t))
            =~= lines.push(line_of(t)));
    }
}

/// Lines that each hold their task read back as those tasks.
proof fn lemma_parse_lines_of(tasks: Seq<TaskView>)
    requires
        forall|i: int| 0 <= i < tasks.len() ==> storable(#[trigger] tasks[i]),
    ensures
        parse_lines(tasks.map_values(|t: TaskView| line_of(t))) == tasks,
    decreases tasks.len(),
{
    if tasks.len() > 0 {
        let init = tasks.drop_last();
        assert(storable(tasks[tasks.len() - 1]));
        lemma_parse_lines_of(init);
        lemma_line_round_trip(tasks.last());
        let lines = tasks.map_values(|t: TaskView| line_of(t));
        assert(lines.drop_last() =~= init.map_values(|t: TaskView| line_of(t)));
        assert(init.push(tasks.last()) =~= tasks);
    }
}

/// What is saved is what is loaded: the text of a day file that stores
/// tasks with storable titles reads back, line by line, as the same tasks,
/// and no line of it makes the reading fail.
pub proof fn lemma_save_load_round_trip(tasks: Seq<TaskView>)
    requires
        forall|i: int| 0 <= i < tasks.len() ==> storable(#[trigger] tasks[i]),
    ensures
        content_cut_ok(render_lines(tasks)),
        parse_content(render_lines(tasks)) == tasks,
{
    lemma_render_split(tasks);
    lemma_parse_lines_of(tasks);
    let lines = tasks.map_values(|t: TaskView| line_of(t));
    let pieces = lines.push(Seq::<char>::empty());
    assert(pieces.drop_last() =~= lines);
    assert(parse_line(Seq::<char>::empty()) is None);
    assert forall|k: int| 0 <= k < pieces.len() implies marker_cut_ok(#[trigger] pieces[k]) by {
        if k < lines.len() {
            assert(storable(tasks[k]));
            lemma_line_round_trip(tasks[k]);
        } else {
            assert(pieces[k] == Seq::<char>::empty());
        }
    }
}


/// `s` occurs in `t` as a contiguous piece.
pub open spec fn is_infix(s: Seq<char>, t: Seq<char>) -> bool {
    exists|i: int| 0 <= i && i + s.len() <= t.len() && #[trigger] t.subrange(i, i + s.len()) == s
}

/// A plain file or directory name: no separator of any platform, no drive
/// colon, not empty, and neither `.` nor `..`.
pub open spec fn plain_name(name: Seq<char>) -> bool {
    &&& name.len() > 0
    &&& !name.contains('/')
    &&& !name.contains('\\')
    &&& !name.contains(':')
    &&& name != seq!['.']
    &&& name != seq!['.', '.']
}

/// A path with a verbatim prefix (`\\?\`), which Windows normalizes when a
/// name is joined under it.
pub open spec fn is_verbatim(p: Seq<char>) -> bool {
    p.len() >= 4 && p.take(4) == seq!['\\', '\\', '?', '\\']
}

/// A separator of some platform: `/` everywhere, `\\` on Windows.
pub open spec fn is_sep(c: char) -> bool {
    c == '/' || c == '\\'
}

/// `r` is `name` joined under `base`: `base`, then a separator where one is
/// needed, then `name`. A base that is empty or ends in `/` takes no
/// separator; a base that ends in anything but a separator or a drive
/// colon takes one.
pub open spec fn joined(base: Seq<char>, name: Seq<char>, r: Seq<char>) -> bool {
    &&& base.len() + name.len() <= r.len() <= base.len() + name.len() + 1
    &&& r.take(base.len() as int) == base
    &&& r.skip(r.len() - name.len()) == name
    &&& (base.len() == 0 || base.last() == '/') ==> r == base + name
    &&& (base.len() > 0 && !is_sep(base.last()) && base.last() != ':') ==> r.len() == base.len()
        + name.len() + 1 && is_sep(r[base.len() as int])
}

/// `Path::join` of a plain name under `base`, as text.
///
/// Which separator `join` puts between the two follows the path rules of
/// the platform (`/` on Unix, `\\` on Windows), so the contract states what
/// holds on every platform (see `joined`). Under a base with a verbatim prefix Windows
/// normalizes the whole path, and nothing is stated of the result there.
#[verifier::external_body]
fn join_path(base: &str, name: &str) -> (r: String)
    requires
        plain_name(name@),
    ensures
        !is_verbatim(base@) ==> joined(base@, name@, r@),
{
    std::path::Path::new(base).join(name).to_string_lossy().into_owned()
}

/// The home directory: `USERPROFILE` if it is set, else `HOME`, else the
/// working directory `.`.
pub open spec fn home_of(user_profile: Option<Seq<char>>, home: Option<Seq<char>>) -> Seq<char> {
    match user_profile {
        Some(p) => p,
        None => match home {
            Some(h) => h,
            None => seq!['.'],
        },
    }
}

/// The text of an optional string.
pub open spec fn opt_view(s: Option<&str>) -> Option<Seq<char>> {
    match s {
        Some(x) => Some(x@),
        None => None,
    }
}

/// The home directory, from the values of the variables `USERPROFILE` and
/// `HOME` (`None` where a variable is unset or not Unicode).
pub fn dirs_home<'a>(user_profile: Option<&'a str>, home: Option<&'a str>) -> (r: &'a str)
    ensures
        r@ == home_of(opt_view(user_profile), opt_view(home)),
{
    match user_profile {
        Some(p) => p,
        None => match home {
            Some(h) => h,
            None => {
                proof {
                    reveal_strlit(".");
                }
                "."
            },
        },
    }
}

/// The name of the data directory under the home directory.
pub open spec fn data_dir_name() -> Seq<char> {
    seq!['.', 'd', 'a', 'i', 'l', 'y', 'c', 'h', 'e', 'c', 'k']
}

/// The directory that holds the day files: `.dailycheck` under the home
/// directory (see `join_path` for a home with a verbatim prefix).
pub fn data_dir(user_profile: Option<&str>, home: Option<&str>) -> (r: String)
    ensures
        !is_verbatim(home_of(opt_view(user_profile), opt_view(home))) ==> joined(
            home_of(opt_view(user_profile), opt_view(home)),
            data_dir_name(),
            r@,
        ),
{
    let base = dirs_home(user_profile, home);
    let name = ".dailycheck";
    proof {
        reveal_strlit(".dailycheck");
        assert(name@ =~= data_dir_name());
        assert(plain_name(name@)) by {
            assert(forall|k: int| 0 <= k < name@.len() ==> name@[k] != '/' && name@[k] != '\\'
                && name@[k] != ':');
            assert(name@.len() != 1 && name@.len() != 2);
        }
    }
    join_path(base, name)
}

/// The decimal digit of value `v`, for `v` from 0 to 9.
pub open spec fn digit_char(v: int) -> char {
    if v == 0 {
        '0'
    } else if v == 1 {
        '1'
    } else if v == 2 {
        '2'
    } else if v == 3 {
        '3'
    } else if v == 4 {
        '4'
    } else if v == 5 {
        '5'
    } else if v == 6 {
        '6'
    } else if v == 7 {
        '7'
    } else if v == 8 {
        '8'
    } else {
        '9'
    }
}

/// The decimal digits of `n`, without leading zeros.
pub open spec fn decimal(n: nat) -> Seq<char>
    decreases n,
{
    if n < 10 {
        seq![digit_char(n as int)]
    } else {
        decimal(n / 10).push(digit_char((n % 10) as int))
    }
}

/// `v`, from 0 to 9999, in exactly four digits.
pub open spec fn four_digits(v: int) -> Seq<char> {
    seq![digit_char(v / 1000), digit_char(v / 100 % 10), digit_char(v / 10 % 10), digit_char(v % 10)]
}

/// `v`, from 0 to 99, in exactly two digits.
pub open spec fn two_digits(v: int) -> Seq<char> {
    seq![digit_char(v / 10), digit_char(v % 10)]
}

/// The year as chrono writes `%Y`: four digits from 0 to 9999; outside that
/// range a sign, then at least four digits.
pub open spec fn year_text(y: int) -> Seq<char> {
    if 0 <= y <= 9999 {
        four_digits(y)
    } else {
        let a = if y < 0 {
            -y
        } else {
            y
        };
        let sign = if y < 0 {
            '-'
        } else {
            '+'
        };
        seq![sign] + if a <= 9999 {
            four_digits(a)
        } else {
            decimal(a as nat)
        }
    }
}

/// The date as chrono writes it with `%Y-%m-%d`: the year, `-`, the month
/// in two digits, `-`, the day in two digits.
pub open spec fn stamp_of(y: int, m: int, d: int) -> Seq<char> {
    year_text(y) + seq!['-'] + two_digits(m) + seq!['-'] + two_digits(d)
}

/// A leap year of the proleptic Gregorian calendar.
pub open spec fn is_leap(y: int) -> bool {
    let a = if y < 0 {
        -y
    } else {
        y
    };
    a % 4 == 0 && (a % 100 != 0 || a % 400 == 0)
}

/// The number of days of month `m` of year `y`.
pub open spec fn days_in_month(y: int, m: int) -> int {
    if m == 2 {
        if is_leap(y) {
            29
        } else {
            28
        }
    } else if m == 4 || m == 6 || m == 9 || m == 11 {
        30
    } else {
        31
    }
}

/// A calendar date that chrono's `NaiveDate` holds: a year from -262143 to
/// 262142, a month from 1 to 12, a day of that month.
pub open spec fn valid_date(y: int, m: int, d: int) -> bool {
    &&& -262143 <= y <= 262142
    &&& 1 <= m <= 12
    &&& 1 <= d <= days_in_month(y, m)
}

/// The calendar that `valid_date` follows: January, March, May, July,
/// August, October and December have 31 days; April, June, September and
/// November 30; February 29 in a leap year (divisible by 4, and not by 100
/// unless by 400) and 28 otherwise. Day 0, a month outside 1 to 12 and a
/// year outside chrono's range are never dates.
pub proof fn lemma_calendar(y: int, m: int, d: int)
    ensures
        !(-262143 <= y <= 262142) ==> !valid_date(y, m, d),
        (m < 1 || m > 12 || d < 1) ==> !valid_date(y, m, d),
        -262143 <= y <= 262142 && (m == 1 || m == 3 || m == 5 || m == 7 || m == 8 || m == 10 || m
            == 12) ==> (valid_date(y, m, d) <==> 1 <= d <= 31),
        -262143 <= y <= 262142 && (m == 4 || m == 6 || m == 9 || m == 11) ==> (valid_date(y, m, d)
            <==> 1 <= d <= 30),
        -262143 <= y <= 262142 && m == 2 && (y % 4 == 0 && (y % 100 != 0 || y % 400 == 0)) ==> (
        valid_date(y, m, d) <==> 1 <= d <= 29),
        -262143 <= y <= 262142 && m == 2 && !(y % 4 == 0 && (y % 100 != 0 || y % 400 == 0)) ==> (
        valid_date(y, m, d) <==> 1 <= d <= 28),
{
    assert((-y) % 4 == 0 <==> y % 4 == 0);
    assert((-y) % 100 == 0 <==> y % 100 == 0);
    assert((-y) % 400 == 0 <==> y % 400 == 0);
}

/// Whether `year`, `month`, `day` make a calendar date (see `valid_date`).
pub fn is_valid_date(year: i32, month: u32, day: u32) -> (r: bool)
    ensures
        r == valid_date(year as int, month as int, day as int),
{
    if year < -262143 || year > 262142 || month < 1 || month > 12 || day < 1 {
        return false;
    }
    let a: u32 = if year < 0 {
        (-year) as u32
    } else {
        year as u32
    };
    let leap = a % 4 == 0 && (a % 100 != 0 || a % 400 == 0);
    let days: u32 = if month == 2 {
        if leap {
            29
        } else {
            28
        }
    } else if month == 4 || month == 6 || month == 9 || month == 11 {
        30
    } else {
        31
    };
    day <= days
}

/// The pattern `%Y-%m-%d`: year, month and day, separated by `-`.
pub open spec fn date_pattern() -> Seq<char> {
    seq!['%', 'Y', '-', '%', 'm', '-', '%', 'd']
}

/// chrono's `NaiveDate::from_ymd_opt(year, month, day)` formatted with the
/// pattern `%Y-%m-%d` (`format(pattern).to_string()`).
///
/// For a date that `from_ymd_opt` accepts, chrono documents the result:
/// `%Y` is the year zero-padded to four digits, with a sign outside 0 to
/// 9999; `%m` and `%d` are two digits (see `stamp_of`).
#[verifier::external_body]
fn format_date(year: i32, month: u32, day: u32, pattern: &str) -> (r: String)
    requires
        valid_date(year as int, month as int, day as int),
        pattern@ == date_pattern(),
    ensures
        r@ == stamp_of(year as int, month as int, day as int),
{
    chrono::NaiveDate::from_ymd_opt(year, month, day).unwrap().format(pattern).to_string()
}

/// The digits of `decimal(n)` are decimal digits.
proof fn lemma_decimal_digits(n: nat)
    ensures
        forall|k: int| 0 <= k < decimal(n).len() ==> '0' <= #[trigger] decimal(n)[k] <= '9',
    decreases n,
{
    if n >= 10 {
        lemma_decimal_digits(n / 10);
        let init = decimal(n / 10);
        assert forall|k: int| 0 <= k < decimal(n).len() implies '0' <= #[trigger] decimal(n)[k]
            <= '9' by {
            if k < init.len() {
                assert(decimal(n)[k] == init[k]);
            }
        }
    }
}

/// A date stamp can stand in a file name.
pub proof fn lemma_stamp_is_plain(y: int, m: int, d: int)
    ensures
        stamp_is_plain(stamp_of(y, m, d)),
{
    let s = stamp_of(y, m, d);
    let a = if y < 0 {
        -y
    } else {
        y
    };
    lemma_decimal_digits(a as nat);
    assert forall|k: int| 0 <= k < s.len() implies s[k] != '/' && s[k] != '\\' && s[k] != ':' by {
        let yt = year_text(y);
        if k < yt.len() {
            assert(s[k] == yt[k]);
            if !(0 <= y <= 9999) && k > 0 && a > 9999 {
                assert(yt[k] == decimal(a as nat)[k - 1]);
            }
        }
    }
}

/// The name of the day file of the date `stamp`.
pub open spec fn day_file_name(stamp: Seq<char>) -> Seq<char> {
    stamp + seq!['.', 't', 'x', 't']
}

/// A date stamp that can stand in a file name: no separator of any
/// platform and no drive colon.
pub open spec fn stamp_is_plain(stamp: Seq<char>) -> bool {
    !stamp.contains('/') && !stamp.contains('\\') && !stamp.contains(':')
}

/// The day file of the date `stamp` in the data directory `dir`: the stamp
/// followed by `.txt`, joined under `dir` (see `join_path` for a directory
/// with a verbatim prefix).
pub fn day_file(dir: &str, stamp: &str) -> (r: String)
    requires
        stamp_is_plain(stamp@),
    ensures
        !is_verbatim(dir@) ==> joined(dir@, day_file_name(stamp@), r@),
{
    let mut name = String::from_str(stamp);
    proof {
        reveal_strlit(".txt");
    }
    name.append(".txt");
    proof {
        let n = name@;
        assert(n =~= day_file_name(stamp@));
        assert(plain_name(n)) by {
            assert forall|k: int| 0 <= k < n.len() implies n[k] != '/' && n[k] != '\\' && n[k]
                != ':' by {
                if k < stamp@.len() {
                    assert(n[k] == stamp@[k]);
                }
            }
            assert(n.last() == 't');
        }
    }
    join_path(dir, name.as_str())
}

/// Today's file in the data directory `dir`: the day file of the date
/// `year`-`month`-`day` (see `day_file`), named as chrono writes the date
/// with `%Y-%m-%d`.
pub fn today_file(dir: &str, year: i32, month: u32, day: u32) -> (r: String)
    requires
        valid_date(year as int, month as int, day as int),
    ensures
        !is_verbatim(dir@) ==> joined(
            dir@,
            day_file_name(stamp_of(year as int, month as int, day as int)),
            r@,
        ),
{
    let pattern = "%Y-%m-%d";
    proof {
        reveal_strlit("%Y-%m-%d");
        assert(pattern@ =~= date_pattern());
        lemma_stamp_is_plain(year as int, month as int, day as int);
    }
    let stamp = format_date(year, month, day, pattern);
    day_file(dir, stamp.as_str())
}

} // verus!
