//! The history of day files: which files count, in which order they are
//! offered, and the label shown for each.
use vstd::prelude::*;

use crate::storage::{day_file_name, four_digits, is_infix, is_sep, joined, stamp_of, two_digits};
use crate::text::{
    join, lemma_split_append, lemma_split_join, lemma_split_pieces,
    lemma_split_push_sep, lemma_split_single, split, split_on,
};

verus! {

/// The label of a file stem: `YYYY-MM-DD` becomes `DD-MM-YYYY`. A stem
/// made of exactly three `-`-separated fields has them in reverse order;
/// any other stem is its own label.
pub open spec fn relabel(stem: Seq<char>) -> Seq<char> {
    let p = split(stem, '-');
    if p.len() == 3 {
        p[2] + seq!['-'] + p[1] + seq!['-'] + p[0]
    } else {
        stem
    }
}

/// The label of a file whose stem is `stem`; a file without a stem has an
/// empty label.
pub open spec fn label_of_stem(stem: Option<Seq<char>>) -> Seq<char> {
    match stem {
        Some(s) => relabel(s),
        None => Seq::empty(),
    }
}

/// The label shown for a file, given its stem (its name without the
/// extension), if it has one.
pub fn label_from_stem(stem: Option<&str>) -> (r: String)
    ensures
        r@ == label_of_stem(
            match stem {
                Some(s) => Some(s@),
                None => None,
            },
        ),
{
    match stem {
        None => String::new(),
        Some(s) => {
            let fields = split_on(s, '-');
            if fields.len() == 3 {
                proof {
                    reveal_strlit("-");
                }
                let mut label = String::from_str(fields[2].as_str());
                label.append("-");
                label.append(fields[1].as_str());
                label.append("-");
                label.append(fields[0].as_str());
                label
            } else {
                String::from_str(s)
            }
        },
    }
}

/// The place of the last `c` in `p`, or -1 when there is none.
pub open spec fn last_index(p: Seq<char>, c: char) -> int
    decreases p.len(),
{
    if p.len() == 0 {
        -1
    } else if p.last() == c {
        p.len() - 1
    } else {
        last_index(p.drop_last(), c)
    }
}

/// What follows the last `/` of `p` (all of `p` when it has none).
pub open spec fn last_name(p: Seq<char>) -> Seq<char> {
    p.skip(last_index(p, '/') + 1)
}

/// A path that reads alike on every platform, and ends in a file name: not
/// empty, without `\\` or `:` (which some platforms read as separators or
/// drive prefixes), not starting with `//`, and whose last `/`-separated
/// part is neither empty, `.` nor `..`.
pub open spec fn simple_path(p: Seq<char>) -> bool {
    &&& p.len() > 0
    &&& !p.contains('\\')
    &&& !p.contains(':')
    &&& !(p.len() >= 2 && p[0] == '/' && p[1] == '/')
    &&& last_name(p).len() > 0
    &&& last_name(p) != seq!['.']
    &&& last_name(p) != seq!['.', '.']
}

/// The stem of a file name, as `Path::file_stem` documents it: the whole
/// name when it has no `.` or its only `.` is its first character,
/// otherwise what comes before its last `.`.
pub open spec fn stem_of_name(name: Seq<char>) -> Seq<char> {
    let k = last_index(name, '.');
    if k <= 0 {
        name
    } else {
        name.take(k)
    }
}

/// The place of the last separator (`/` or `\\`) in `p`, or -1 when there is
/// none.
pub open spec fn last_sep_index(p: Seq<char>) -> int
    decreases p.len(),
{
    if p.len() == 0 {
        -1
    } else if is_sep(p.last()) {
        p.len() - 1
    } else {
        last_sep_index(p.drop_last())
    }
}

/// What follows the last separator of `p`, `/` or `\\` (all of `p` when it
/// has none).
pub open spec fn last_part(p: Seq<char>) -> Seq<char> {
    p.skip(last_sep_index(p) + 1)
}

/// A path that ends in a file name however a platform reads it: it does not
/// start with two separators (a Windows server or verbatim prefix), and its
/// last part after `/` or `\\` is not empty, has no drive colon, and is
/// neither `.` nor `..`.
pub open spec fn names_a_file(p: Seq<char>) -> bool {
    &&& !(p.len() >= 2 && is_sep(p[0]) && is_sep(p[1]))
    &&& last_part(p).len() > 0
    &&& !last_part(p).contains(':')
    &&& last_part(p) != seq!['.']
    &&& last_part(p) != seq!['.', '.']
}

/// `Path::file_stem` of `path` (its file name without the extension), as
/// text.
///
/// Which characters separate the components of a path depends on the
/// platform. The contract states what holds on every platform: a stem is a
/// non-empty piece of the path, without `/` in it when the path has no `\\`
/// (under a Windows verbatim prefix only `\\` separates); and for a path that
/// every platform reads alike (`simple_path`), the stem is that of its last
/// `/`-separated part, by the rules that `file_stem` documents. A path that
/// ends in a file name however it is read (`names_a_file`) has a stem: that
/// of its last part after `/` or `\\` where `\\` separates (Windows), that
/// of its last part after `/` where only `/` does (Unix).
#[verifier::external_body]
fn file_stem(path: &str) -> (r: Option<String>)
    ensures
        r matches Some(s) ==> s@.len() > 0 && is_infix(s@, path@),
        r matches Some(s) ==> (!path@.contains('\\') ==> !s@.contains('/')),
        r is Some || !simple_path(path@),
        r matches Some(s) ==> (simple_path(path@) ==> s@ == stem_of_name(last_name(path@))),
        r is Some || !names_a_file(path@),
        r matches Some(s) ==> (names_a_file(path@) ==> (s@ == stem_of_name(last_part(path@)) || s@
            == stem_of_name(last_name(path@)))),
{
    match std::path::Path::new(path).file_stem() {
        Some(stem) => Some(stem.to_string_lossy().into_owned()),
        None => None,
    }
}

/// The label shown for a day file: `YYYY-MM-DD.txt` is shown as
/// `DD-MM-YYYY`. It is the label of the file's stem (see `label_from_stem`),
/// and empty for a path without a file name. For a path that every
/// platform reads alike, it is the label of the stem of its last part.
pub fn date_label(path: &str) -> (r: String)
    ensures
        r@.len() == 0 || exists|stem: Seq<char>|
            #[trigger] is_infix(stem, path@) && stem.len() > 0 && (!path@.contains('\\')
                ==> !stem.contains('/')) && r@ == relabel(stem),
        simple_path(path@) ==> r@ == relabel(stem_of_name(last_name(path@))),
        names_a_file(path@) ==> r@.len() > 0,
        names_a_file(path@) ==> (r@ == relabel(stem_of_name(last_part(path@))) || r@ == relabel(
            stem_of_name(last_name(path@)),
        )),
{
    let stem = file_stem(path);
    proof {
        if let Some(s) = &stem {
            lemma_relabel_nonempty(s@);
        }
    }
    match stem {
        Some(s) => label_from_stem(Some(s.as_str())),
        None => label_from_stem(None),
    }
}

/// Three pieces without the separator, joined with it, split back into
/// them.
pub proof fn lemma_split_three(a: Seq<char>, b: Seq<char>, c: Seq<char>, sep: char)
    requires
        !a.contains(sep),
        !b.contains(sep),
        !c.contains(sep),
    ensures
        split(a + seq![sep] + b + seq![sep] + c, sep) == seq![a, b, c],
{
    lemma_split_single(a, sep);
    lemma_split_push_sep(a, sep);
    lemma_split_append(a.push(sep), b, sep);
    assert(seq![a].push(Seq::<char>::empty()).update(1, Seq::<char>::empty() + b) =~= seq![a, b]);
    lemma_split_push_sep(a.push(sep) + b, sep);
    lemma_split_append((a.push(sep) + b).push(sep), c, sep);
    assert(seq![a, b].push(Seq::<char>::empty()).update(2, Seq::<char>::empty() + c) =~= seq![
        a,
        b,
        c,
    ]);
    assert(((a.push(sep) + b).push(sep) + c) =~= a + seq![sep] + b + seq![sep] + c);
}

/// The place of the last `c` in `x`, `c`, `y` is that `c` when `y` has none.
pub proof fn lemma_last_index_after(x: Seq<char>, c: char, y: Seq<char>)
    requires
        !y.contains(c),
    ensures
        last_index(x.push(c) + y, c) == x.len(),
    decreases y.len(),
{
    if y.len() == 0 {
        assert(x.push(c) + y =~= x.push(c));
    } else {
        let z = y.drop_last();
        assert(!z.contains(c)) by {
            if z.contains(c) {
                let k = choose|k: int| 0 <= k < z.len() && z[k] == c;
                assert(y[k] == c);
            }
        }
        assert(y[y.len() - 1] != c);
        lemma_last_index_after(x, c, z);
        assert((x.push(c) + y).drop_last() =~= x.push(c) + z);
    }
}

/// The label of the date `y`-`m`-`d` with a year from 0 to 9999:
/// `DD-MM-YYYY`.
pub open spec fn day_label(y: int, m: int, d: int) -> Seq<char> {
    two_digits(d) + seq!['-'] + two_digits(m) + seq!['-'] + four_digits(y)
}

/// A sequence without `c` has no last `c`.
pub proof fn lemma_last_index_none(y: Seq<char>, c: char)
    requires
        !y.contains(c),
    ensures
        last_index(y, c) == -1,
    decreases y.len(),
{
    if y.len() > 0 {
        assert(y[y.len() - 1] != c);
        assert(!y.drop_last().contains(c)) by {
            if y.drop_last().contains(c) {
                let k = choose|k: int| 0 <= k < y.drop_last().len() && y.drop_last()[k] == c;
                assert(y[k] == c);
            }
        }
        lemma_last_index_none(y.drop_last(), c);
    }
}

/// Today's file is shown as today's date, `DD-MM-YYYY`: where the separator
/// is `/`, the day file of a date with a year from 0 to 9999, joined under a
/// directory that every platform reads alike, is a path that every platform
/// reads alike, and its label is the date with day and year swapped.
pub proof fn lemma_today_file_label(dir: Seq<char>, y: int, m: int, d: int, r: Seq<char>)
    requires
        0 <= y <= 9999,
        1 <= m <= 12,
        1 <= d <= 31,
        !dir.contains('\\'),
        !dir.contains(':'),
        !(dir.len() >= 2 && dir[0] == '/' && dir[1] == '/'),
        joined(dir, day_file_name(stamp_of(y, m, d)), r),
        !r.contains('\\'),
    ensures
        simple_path(r),
        relabel(stem_of_name(last_name(r))) == day_label(y, m, d),
{
    let stamp = stamp_of(y, m, d);
    let name = day_file_name(stamp);
    let yt = four_digits(y);
    let mt = two_digits(m);
    let dt = two_digits(d);
    assert(stamp =~= yt + seq!['-'] + mt + seq!['-'] + dt);
    assert(name.len() == 14);
    assert(!name.contains('/') && !name.contains('\\') && !name.contains(':')) by {
        if name.contains('/') || name.contains('\\') || name.contains(':') {
            let k = choose|k: int|
                0 <= k < name.len() && (name[k] == '/' || name[k] == '\\' || name[k] == ':');
        }
    }
    // Where the name stands in the path.
    if dir.len() == 0 || dir.last() == '/' {
        assert(r == dir + name);
        if dir.len() == 0 {
            assert(r =~= name);
            lemma_last_index_none(name, '/');
        } else {
            assert(r =~= dir.drop_last().push('/') + name);
            lemma_last_index_after(dir.drop_last(), '/', name);
        }
    } else {
        assert(dir.last() != '\\') by {
            assert(dir[dir.len() - 1] == dir.last());
        }
        assert(dir.last() != ':') by {
            assert(dir[dir.len() - 1] == dir.last());
        }
        assert(r.len() == dir.len() + name.len() + 1);
        assert(r[dir.len() as int] == '/') by {
            assert(is_sep(r[dir.len() as int]));
        }
        assert(r =~= dir.push('/') + name) by {
            assert forall|k: int| 0 <= k < r.len() implies r[k] == (dir.push('/') + name)[k] by {
                if k < dir.len() {
                    assert(r.take(dir.len() as int)[k] == r[k]);
                } else if k > dir.len() {
                    assert(r.skip(r.len() - name.len())[k - dir.len() - 1] == r[k]);
                }
            }
        }
        lemma_last_index_after(dir, '/', name);
    }
    assert(last_name(r) =~= name);
    assert(!r.contains(':')) by {
        if r.contains(':') {
            let k = choose|k: int| 0 <= k < r.len() && r[k] == ':';
            if k < dir.len() {
                assert(r.take(dir.len() as int)[k] == r[k]);
            } else if k >= r.len() - name.len() {
                assert(r.skip(r.len() - name.len())[k - (r.len() - name.len())] == r[k]);
            }
        }
    }
    assert(!(r.len() >= 2 && r[0] == '/' && r[1] == '/')) by {
        if dir.len() >= 2 {
            assert(r.take(dir.len() as int)[0] == r[0]);
            assert(r.take(dir.len() as int)[1] == r[1]);
        } else if r.len() >= 2 && r[0] == '/' && r[1] == '/' {
            if dir.len() == 1 {
                assert(r.take(1)[0] == r[0]);
                if dir.last() == '/' {
                    assert(r[1] == name[0]);
                } else {
                    assert(dir.last() == dir[0]);
                }
            } else {
                assert(r[0] == name[0]);
            }
        }
    }
    assert(name =~= stamp.push('.') + seq!['t', 'x', 't']);
    assert(!stamp.contains('.')) by {
        if stamp.contains('.') {
            let k = choose|k: int| 0 <= k < stamp.len() && stamp[k] == '.';
        }
    }
    assert(!seq!['t', 'x', 't'].contains('.')) by {
        if seq!['t', 'x', 't'].contains('.') {
            let k = choose|k: int| 0 <= k < 3 && seq!['t', 'x', 't'][k] == '.';
        }
    }
    lemma_last_index_after(stamp, '.', seq!['t', 'x', 't']);
    assert(stem_of_name(name) =~= stamp);
    assert(!yt.contains('-')) by {
        if yt.contains('-') {
            let k = choose|k: int| 0 <= k < yt.len() && yt[k] == '-';
        }
    }
    assert(!mt.contains('-')) by {
        if mt.contains('-') {
            let k = choose|k: int| 0 <= k < mt.len() && mt[k] == '-';
        }
    }
    assert(!dt.contains('-')) by {
        if dt.contains('-') {
            let k = choose|k: int| 0 <= k < dt.len() && dt[k] == '-';
        }
    }
    lemma_split_three(yt, mt, dt, '-');
}

/// A character that is not in a three-field stem is not in its label.
proof fn lemma_relabel_avoids(stem: Seq<char>, c: char)
    requires
        split(stem, '-').len() == 3,
        !stem.contains(c),
        c != '-',
    ensures
        !relabel(stem).contains(c),
{
    let p = split(stem, '-');
    lemma_split_join(stem, '-');
    assert(p.drop_last().drop_last() =~= seq![p[0]]);
    assert(p.drop_last() =~= seq![p[0], p[1]]);
    assert(join(p.drop_last().drop_last(), '-') == p[0]);
    assert(join(p.drop_last(), '-') == p[0] + seq!['-'] + p[1]);
    let (a, b, e) = (p[0], p[1], p[2]);
    assert(stem == a + seq!['-'] + b + seq!['-'] + e);
    let l = relabel(stem);
    assert(l == e + seq!['-'] + b + seq!['-'] + a);
    if l.contains(c) {
        let k = choose|k: int| 0 <= k < l.len() && l[k] == c;
        if k < e.len() {
            assert(stem[a.len() + b.len() + 2 + k] == c);
        } else if k > e.len() && k < e.len() + 1 + b.len() {
            assert(stem[a.len() + 1 + (k - e.len() - 1)] == c);
        } else if k > e.len() + 1 + b.len() {
            assert(stem[k - e.len() - b.len() - 2] == c);
        }
    }
}

/// A label read back as a file name gives the stem back: for a stem of
/// three `-`-separated fields without `.`, `/`, `\` or `:`, the file named
/// by its label followed by `.txt` is a path that every platform reads
/// alike, and the label of that path is the stem.
pub proof fn lemma_label_round_trip(stem: Seq<char>)
    requires
        split(stem, '-').len() == 3,
        !stem.contains('.'),
        !stem.contains('/'),
        !stem.contains('\\'),
        !stem.contains(':'),
    ensures
        simple_path(relabel(stem) + seq!['.', 't', 'x', 't']),
        relabel(stem_of_name(last_name(relabel(stem) + seq!['.', 't', 'x', 't']))) == stem,
{
    let l = relabel(stem);
    let txt = seq!['t', 'x', 't'];
    let path = l + seq!['.', 't', 'x', 't'];
    lemma_relabel_avoids(stem, '.');
    lemma_relabel_avoids(stem, '/');
    lemma_relabel_avoids(stem, '\\');
    lemma_relabel_avoids(stem, ':');
    lemma_relabel_involution(stem);
    assert(path =~= l.push('.') + txt);
    assert(!txt.contains('.') && !txt.contains('/') && !txt.contains('\\') && !txt.contains(':'))
        by {
        if txt.contains('.') || txt.contains('/') || txt.contains('\\') || txt.contains(':') {
            let k = choose|k: int|
                0 <= k < 3 && (txt[k] == '.' || txt[k] == '/' || txt[k] == '\\' || txt[k] == ':');
        }
    }
    assert forall|ch: char| ch == '/' || ch == '\\' || ch == ':' implies !path.contains(ch) by {
        if path.contains(ch) {
            let k = choose|k: int| 0 <= k < path.len() && path[k] == ch;
            if k < l.len() {
                assert(l[k] == ch);
            } else if k > l.len() {
                assert(txt[k - l.len() - 1] == ch);
            }
        }
    }
    lemma_last_index_none(path, '/');
    assert(last_name(path) =~= path);
    lemma_last_index_after(l, '.', txt);
    assert(stem_of_name(path) =~= l);
    assert(path.len() > 4);
    assert(path.last() == 't');
}

/// The label of a non-empty stem is not empty.
pub proof fn lemma_relabel_nonempty(stem: Seq<char>)
    requires
        stem.len() > 0,
    ensures
        relabel(stem).len() > 0,
{
}

/// Relabelling twice gives the stem back when it has three fields: the
/// label of a date is again a date with three fields, in the first order.
pub proof fn lemma_relabel_involution(stem: Seq<char>)
    requires
        split(stem, '-').len() == 3,
    ensures
        split(relabel(stem), '-').len() == 3,
        relabel(relabel(stem)) == stem,
{
    let p = split(stem, '-');
    lemma_split_pieces(stem, '-');
    assert(!p[0].contains('-'));
    assert(!p[1].contains('-'));
    assert(!p[2].contains('-'));
    let a = p[2];
    let b = p[1];
    let c = p[0];
    lemma_split_three(a, b, c, '-');
    let q = split(relabel(stem), '-');
    assert(q =~= seq![a, b, c]);
    lemma_split_join(stem, '-');
    assert(p.drop_last().drop_last() =~= seq![p[0]]);
    assert(p.drop_last() =~= seq![p[0], p[1]]);
    assert(join(p.drop_last().drop_last(), '-') == c);
    assert(join(p.drop_last(), '-') == c + seq!['-'] + b);
    assert(join(p, '-') == c + seq!['-'] + b + seq!['-'] + a);
}


/// `a` comes strictly before `b` in byte order, byte by byte, a proper
/// prefix first: the order in which file names compare.
pub open spec fn lex_less(a: Seq<u8>, b: Seq<u8>) -> bool
    decreases a.len(),
{
    if b.len() == 0 {
        false
    } else if a.len() == 0 {
        true
    } else if a[0] != b[0] {
        a[0] < b[0]
    } else {
        lex_less(a.drop_first(), b.drop_first())
    }
}

/// Of two different sequences, one comes before the other, and never both.
pub proof fn lemma_lex_total(a: Seq<u8>, b: Seq<u8>)
    ensures
        !(lex_less(a, b) && lex_less(b, a)),
        !lex_less(a, a),
        a != b ==> lex_less(a, b) || lex_less(b, a),
    decreases a.len(),
{
    if a.len() > 0 && b.len() > 0 {
        lemma_lex_total(a.drop_first(), b.drop_first());
        lemma_lex_total(a.drop_first(), a.drop_first());
        if a != b && a[0] == b[0] {
            assert(a.drop_first() != b.drop_first()) by {
                if a.drop_first() == b.drop_first() {
                    assert(a =~= seq![a[0]] + a.drop_first());
                    assert(b =~= seq![b[0]] + b.drop_first());
                }
            }
        }
    } else if a.len() > 0 {
        lemma_lex_total(a.drop_first(), a.drop_first());
    } else if b.len() == 0 {
        assert(a =~= b);
    }
}

/// Names compare as byte strings: where two names first differ, the one
/// with the smaller byte there comes first.
pub proof fn lemma_lex_first_difference(a: Seq<u8>, b: Seq<u8>, i: int)
    requires
        0 <= i < a.len(),
        i < b.len(),
        a.take(i) == b.take(i),
        a[i] != b[i],
    ensures
        lex_less(a, b) <==> a[i] < b[i],
    decreases i,
{
    if i > 0 {
        assert(a[0] == a.take(i)[0] && b[0] == b.take(i)[0]);
        assert(a.drop_first().take(i - 1) =~= a.take(i).drop_first());
        assert(b.drop_first().take(i - 1) =~= b.take(i).drop_first());
        lemma_lex_first_difference(a.drop_first(), b.drop_first(), i - 1);
    }
}

/// A proper prefix of a name comes before it, and not after.
pub proof fn lemma_lex_prefix(a: Seq<u8>, b: Seq<u8>)
    requires
        a.len() < b.len(),
        b.take(a.len() as int) == a,
    ensures
        lex_less(a, b),
        !lex_less(b, a),
    decreases a.len(),
{
    if a.len() > 0 {
        assert(a[0] == b.take(a.len() as int)[0]);
        assert(b.drop_first().take(a.len() - 1) =~= a.drop_first());
        lemma_lex_prefix(a.drop_first(), b.drop_first());
    }
}

/// The order is transitive.
pub proof fn lemma_lex_trans(a: Seq<u8>, b: Seq<u8>, c: Seq<u8>)
    requires
        lex_less(a, b),
        lex_less(b, c),
    ensures
        lex_less(a, c),
    decreases a.len(),
{
    if a.len() > 0 && b.len() > 0 && c.len() > 0 && a[0] == b[0] && b[0] == c[0] {
        lemma_lex_trans(a.drop_first(), b.drop_first(), c.drop_first());
    }
}

/// Whether `a` comes strictly before `b`.
pub fn lex_less_bytes(a: &[u8], b: &[u8]) -> (r: bool)
    ensures
        r == lex_less(a@, b@),
{
    let n = a.len();
    let m = b.len();
    let mut i: usize = 0;
    assert(a@.skip(0) =~= a@);
    assert(b@.skip(0) =~= b@);
    while i < n && i < m
        invariant
            n == a@.len(),
            m == b@.len(),
            i <= n,
            i <= m,
            lex_less(a@, b@) == lex_less(a@.skip(i as int), b@.skip(i as int)),
        decreases n - i,
    {
        let x = a[i];
        let y = b[i];
        if x != y {
            return x < y;
        }
        assert(a@.skip(i as int).drop_first() =~= a@.skip(i + 1));
        assert(b@.skip(i as int).drop_first() =~= b@.skip(i + 1));
        i += 1;
    }
    i < m
}

/// The bytes of `.txt`.
pub open spec fn txt_suffix() -> Seq<u8> {
    seq![46u8, 116u8, 120u8, 116u8]
}

/// A day file: a name with the extension `txt`, that is a name that ends in
/// `.txt` with something before the dot (a name that starts with its only
/// dot has no extension).
pub open spec fn is_day_file(name: Seq<u8>) -> bool {
    name.len() > 4 && name.skip(name.len() - 4) == txt_suffix()
}

/// Whether `name` (the bytes of a file name) is the name of a day file.
pub fn is_day_file_name(name: &[u8]) -> (r: bool)
    ensures
        r == is_day_file(name@),
{
    let n = name.len();
    if n <= 4 {
        return false;
    }
    // `.`, `t`, `x`, `t`
    let r = name[n - 4] == 46u8 && name[n - 3] == 116u8 && name[n - 2] == 120u8 && name[n - 1]
        == 116u8;
    assert(r ==> name@.skip(n - 4) =~= txt_suffix());
    assert(name@.skip(n - 4) == txt_suffix() ==> r) by {
        if name@.skip(n - 4) == txt_suffix() {
            assert(name@.skip(n - 4)[0] == name@[n - 4]);
            assert(name@.skip(n - 4)[1] == name@[n - 3]);
            assert(name@.skip(n - 4)[2] == name@[n - 2]);
            assert(name@.skip(n - 4)[3] == name@[n - 1]);
        }
    }
    r
}

/// A day file is exactly a non-empty stem followed by `.txt`.
pub proof fn lemma_day_file_is_stem_txt(stem: Seq<u8>, name: Seq<u8>)
    ensures
        stem.len() > 0 ==> is_day_file(stem + seq![46u8, 116u8, 120u8, 116u8]),
        is_day_file(name) ==> name == name.take(name.len() - 4) + seq![46u8, 116u8, 120u8, 116u8]
            && name.len() - 4 > 0,
        name.len() >= 4 && name.take(name.len() - 4).len() == 0 ==> !is_day_file(name),
        name.len() >= 1 && name.last() != 116u8 ==> !is_day_file(name),
{
    let n = stem + seq![46u8, 116u8, 120u8, 116u8];
    assert(n.skip(n.len() - 4) =~= txt_suffix());
    if is_day_file(name) {
        assert(name =~= name.take(name.len() - 4) + name.skip(name.len() - 4));
    }
    if name.len() >= 1 && name.last() != 116u8 && is_day_file(name) {
        assert(name.skip(name.len() - 4)[3] == name.last());
    }
}

/// In the history, file `i` is offered before file `j`: the newest date
/// first, that is the greater name first, and of two equal names the one
/// listed first.
pub open spec fn offered_before(names: Seq<Vec<u8>>, i: int, j: int) -> bool {
    ||| lex_less(names[j]@, names[i]@)
    ||| (names[i]@ == names[j]@ && i < j)
}

/// The files offered in the history, in order: the indices of the day files
/// among `names`, each once, the greatest name first.
pub fn history_order(names: &Vec<Vec<u8>>) -> (r: Vec<usize>)
    ensures
        forall|k: int|
            0 <= k < r.len() ==> #[trigger] r[k] < names.len() && is_day_file(names[r[k] as int]@),
        forall|i: int| 0 <= i < names.len() && is_day_file(names[i]@) ==> r@.contains(i as usize),
        forall|k: int, l: int|
            0 <= k < l < r.len() ==> offered_before(names@, #[trigger] r[k] as int, #[trigger] r[l] as int),
{
    let mut order: Vec<usize> = Vec::new();
    let mut i: usize = 0;
    while i < names.len()
        invariant
            i <= names.len(),
            forall|k: int|
                0 <= k < order.len() ==> #[trigger] order[k] < i && is_day_file(
                    names[order[k] as int]@,
                ),
            forall|j: int| 0 <= j < i && is_day_file(names[j]@) ==> order@.contains(j as usize),
            forall|k: int, l: int|
                0 <= k < l < order.len() ==> offered_before(
                    names@,
                    #[trigger] order[k] as int,
                    #[trigger] order[l] as int,
                ),
        decreases names.len() - i,
    {
        if is_day_file_name(names[i].as_slice()) {
            let mut p: usize = 0;
            while p < order.len()
                invariant
                    p <= order.len(),
                    i < names.len(),
                    forall|k: int| 0 <= k < order.len() ==> #[trigger] order[k] < i,
                    forall|k: int|
                        0 <= k < p ==> !lex_less(names[#[trigger] order[k] as int]@, names[i as int]@),
                ensures
                    p == order.len() || lex_less(names[order[p as int] as int]@, names[i as int]@),
                decreases order.len() - p,
            {
                if lex_less_bytes(names[order[p]].as_slice(), names[i].as_slice()) {
                    break;
                }
                p += 1;
            }
            let ghost old_order = order@;
            order.insert(p, i);
            proof {
                lemma_insert_keeps_order(names@, old_order, p as int, i as int);
            }
            assert forall|j: int| 0 <= j < i + 1 && is_day_file(names[j]@) implies order@.contains(
                j as usize,
            ) by {
                if j < i {
                    let k = choose|k: int| 0 <= k < old_order.len() && old_order[k] == j as usize;
                    if k < p {
                        assert(order@[k] == j as usize);
                    } else {
                        assert(order@[k + 1] == j as usize);
                    }
                } else {
                    assert(order@[p as int] == j as usize);
                }
            }
        }
        i += 1;
    }
    order
}

/// Inserting file `i` after every file whose name is not below its own, and
/// before the rest, keeps the history in order.
proof fn lemma_insert_keeps_order(names: Seq<Vec<u8>>, order: Seq<usize>, p: int, i: int)
    requires
        0 <= p <= order.len(),
        forall|k: int| 0 <= k < order.len() ==> #[trigger] order[k] < i,
        forall|k: int, l: int|
            0 <= k < l < order.len() ==> offered_before(
                names,
                #[trigger] order[k] as int,
                #[trigger] order[l] as int,
            ),
        forall|k: int| 0 <= k < p ==> !lex_less(names[#[trigger] order[k] as int]@, names[i]@),
        p == order.len() || lex_less(names[order[p] as int]@, names[i]@),
        0 <= i <= usize::MAX,
    ensures
        forall|k: int, l: int|
            0 <= k < l < order.insert(p, i as usize).len() ==> offered_before(
                names,
                #[trigger] order.insert(p, i as usize)[k] as int,
                #[trigger] order.insert(p, i as usize)[l] as int,
            ),
{
    let n = order.insert(p, i as usize);
    order.insert_ensures(p, i as usize);
    assert forall|k: int, l: int| 0 <= k < l < n.len() implies offered_before(
        names,
        #[trigger] n[k] as int,
        #[trigger] n[l] as int,
    ) by {
        if l < p {
            assert(offered_before(names, order[k] as int, order[l] as int));
        } else if l == p {
            let a = order[k] as int;
            lemma_lex_total(names[a]@, names[i]@);
            assert(!lex_less(names[a]@, names[i]@));
        } else if k > p {
            assert(offered_before(names, order[k - 1] as int, order[l - 1] as int));
        } else if k == p {
            let b = order[l - 1] as int;
            let q = order[p] as int;
            if l - 1 > p {
                assert(offered_before(names, q, b));
                if lex_less(names[b]@, names[q]@) {
                    lemma_lex_trans(names[b]@, names[q]@, names[i]@);
                }
            }
        } else {
            assert(offered_before(names, order[k] as int, order[l - 1] as int));
        }
    }
}

} // verus!
