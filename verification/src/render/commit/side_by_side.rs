//! The diff in two columns: each run of removals is paired with the run of
//! additions that replaced it, and whichever side runs out first is blank.

use vstd::prelude::*;
use crate::render::commit::{LineKind, PatchLine};
use crate::text;
use crate::text::has_prefix;

verus! {

/// One row of a two-column diff.
pub enum SideRow<'a> {
    /// A line belonging to neither side on its own — a `diff --git` header, the
    /// block under it, or a `@@` marker — laid across both columns.
    Span(&'a PatchLine),
    /// An unchanged line, which both columns show.
    Both(&'a str),
    /// A change. Either side is absent where the two runs are uneven: three
    /// lines replaced by one leaves two rows with nothing on the right.
    Change { del: Option<&'a str>, ins: Option<&'a str> },
}

/// What a line of a diff is to the two columns.
pub enum Role {
    /// A removal, and what was removed.
    Removed(Seq<char>),
    /// An addition, and what was added.
    Added(Seq<char>),
    /// An unchanged line.
    Kept(Seq<char>),
    /// Neither.
    Header,
}

/// What a line of a diff is to the two columns. Its first character is the
/// marker that a unified diff needs; the column says the same thing, so it
/// comes off. The `---` and `+++` headers are part of no run.
pub open spec fn role(line: PatchLine) -> Role {
    let t = line.text@;
    if line.kind == LineKind::Delete && "-"@.is_prefix_of(t) && !"---"@.is_prefix_of(t) {
        Role::Removed(t.skip(1))
    } else if line.kind == LineKind::Insert && "+"@.is_prefix_of(t) && !"+++"@.is_prefix_of(t) {
        Role::Added(t.skip(1))
    } else if line.kind == LineKind::Context && " "@.is_prefix_of(t) {
        Role::Kept(t.skip(1))
    } else {
        Role::Header
    }
}

/// What a [`SideRow`] shows.
pub enum Cells {
    Span(PatchLine),
    Both(Seq<char>),
    Change(Option<Seq<char>>, Option<Seq<char>>),
}

pub open spec fn cells(row: SideRow) -> Cells {
    match row {
        SideRow::Span(line) => Cells::Span(*line),
        SideRow::Both(t) => Cells::Both(t@),
        SideRow::Change { del, ins } => Cells::Change(
            (match del {
                Some(t) => Some(t@),
                None => None,
            }),
            (match ins {
                Some(t) => Some(t@),
                None => None,
            }),
        ),
    }
}

pub open spec fn cells_of(rows: Seq<SideRow>) -> Seq<Cells> {
    rows.map_values(|r: SideRow| cells(r))
}

pub open spec fn is_change(line: PatchLine) -> bool {
    role(line) is Removed || role(line) is Added
}

/// How many of `lines` are changes before the first that is not.
pub open spec fn run_length(lines: Seq<PatchLine>) -> int
    decreases lines.len(),
{
    if lines.len() == 0 || !is_change(lines[0]) {
        0
    } else {
        1 + run_length(lines.drop_first())
    }
}

/// What `lines` remove.
pub open spec fn removed(lines: Seq<PatchLine>) -> Seq<Seq<char>>
    decreases lines.len(),
{
    if lines.len() == 0 {
        Seq::empty()
    } else {
        match role(lines[0]) {
            Role::Removed(t) => seq![t] + removed(lines.drop_first()),
            _ => removed(lines.drop_first()),
        }
    }
}

/// What `lines` add.
pub open spec fn added(lines: Seq<PatchLine>) -> Seq<Seq<char>>
    decreases lines.len(),
{
    if lines.len() == 0 {
        Seq::empty()
    } else {
        match role(lines[0]) {
            Role::Added(t) => seq![t] + added(lines.drop_first()),
            _ => added(lines.drop_first()),
        }
    }
}

/// The text at `i`, where there is one.
pub open spec fn at<T>(texts: Seq<T>, i: int) -> Option<T> {
    if i < texts.len() {
        Some(texts[i])
    } else {
        None
    }
}

/// The longer of two lengths.
pub open spec fn longer(a: nat, b: nat) -> nat {
    if a < b {
        b
    } else {
        a
    }
}

/// Removals and additions side by side: the *n*th of one opposite the *n*th of
/// the other, and blanks opposite the longer run's tail.
pub open spec fn paired(dels: Seq<Seq<char>>, inss: Seq<Seq<char>>) -> Seq<Cells> {
    Seq::new(
        longer(dels.len(), inss.len()),
        |i: int| Cells::Change(at(dels, i), at(inss, i)),
    )
}

/// The row of a line that is no change.
pub open spec fn lone(line: PatchLine) -> Cells {
    match role(line) {
        Role::Kept(t) => Cells::Both(t),
        _ => Cells::Span(line),
    }
}

/// The rows of a diff: each run of changes paired, and a row of its own for
/// every other line.
pub open spec fn rows_of(lines: Seq<PatchLine>) -> Seq<Cells>
    decreases lines.len(),
{
    if lines.len() == 0 {
        Seq::empty()
    } else if run_length(lines) <= 0 || run_length(lines) > lines.len() {
        seq![lone(lines[0])] + rows_of(lines.drop_first())
    } else {
        let run = lines.take(run_length(lines));
        paired(removed(run), added(run)) + rows_of(lines.skip(run_length(lines)))
    }
}

/// The rows of a run that has begun with `dels` and `inss` and goes on with
/// `lines`, and of what follows it.
spec fn rows_from(dels: Seq<Seq<char>>, inss: Seq<Seq<char>>, lines: Seq<PatchLine>) -> Seq<
    Cells,
> {
    let run = lines.take(run_length(lines));
    paired(dels + removed(run), inss + added(run)) + rows_of(lines.skip(run_length(lines)))
}

proof fn lemma_run_length(lines: Seq<PatchLine>)
    ensures
        0 <= run_length(lines) <= lines.len(),
        forall|i: int| 0 <= i < run_length(lines) ==> is_change(#[trigger] lines[i]),
    decreases lines.len(),
{
    if lines.len() > 0 && is_change(lines[0]) {
        let rest = lines.drop_first();
        lemma_run_length(rest);
        assert forall|i: int| 0 <= i < run_length(lines) implies is_change(#[trigger] lines[i]) by {
            if i > 0 {
                assert(lines[i] == rest[i - 1]);
            }
        }
    }
}

proof fn lemma_rows_begin(lines: Seq<PatchLine>)
    ensures
        rows_from(Seq::empty(), Seq::empty(), lines) == rows_of(lines),
{
    lemma_run_length(lines);
    let n = run_length(lines);
    let run = lines.take(n);
    let none = Seq::<Seq<char>>::empty();
    assert(none + removed(run) =~= removed(run));
    assert(none + added(run) =~= added(run));
    if n == 0 {
        assert(run =~= Seq::empty());
        assert(lines.skip(0) =~= lines);
        assert(paired(none, none) + rows_of(lines) =~= rows_of(lines));
    }
}

/// A change goes on the run.
proof fn lemma_rows_change(dels: Seq<Seq<char>>, inss: Seq<Seq<char>>, lines: Seq<PatchLine>)
    requires
        lines.len() > 0,
        is_change(lines[0]),
    ensures
        match role(lines[0]) {
            Role::Removed(t) => rows_from(dels, inss, lines) == rows_from(
                dels.push(t),
                inss,
                lines.drop_first(),
            ),
            Role::Added(t) => rows_from(dels, inss, lines) == rows_from(
                dels,
                inss.push(t),
                lines.drop_first(),
            ),
            _ => true,
        },
{
    let rest = lines.drop_first();
    let n = run_length(lines);
    lemma_run_length(rest);
    let run = lines.take(n);
    assert(run.drop_first() =~= rest.take(n - 1));
    assert(lines.skip(n) =~= rest.skip(n - 1));
    assert(run[0] == lines[0]);
    match role(lines[0]) {
        Role::Removed(t) => {
            assert(dels + removed(run) =~= dels.push(t) + removed(rest.take(n - 1)));
        },
        Role::Added(t) => {
            assert(inss + added(run) =~= inss.push(t) + added(rest.take(n - 1)));
        },
        _ => {},
    }
}

/// A line that is no change ends the run.
proof fn lemma_rows_lone(dels: Seq<Seq<char>>, inss: Seq<Seq<char>>, lines: Seq<PatchLine>)
    requires
        lines.len() > 0,
        !is_change(lines[0]),
    ensures
        rows_from(dels, inss, lines) == paired(dels, inss) + seq![lone(lines[0])] + rows_from(
            Seq::empty(),
            Seq::empty(),
            lines.drop_first(),
        ),
{
    let run = lines.take(0);
    assert(run =~= Seq::empty());
    assert(dels + removed(run) =~= dels);
    assert(inss + added(run) =~= inss);
    assert(lines.skip(0) =~= lines);
    lemma_rows_begin(lines.drop_first());
    assert(rows_from(dels, inss, lines) =~= paired(dels, inss) + seq![lone(lines[0])]
        + rows_of(lines.drop_first()));
}

/// The texts that slices hold.
pub open spec fn slices(v: Seq<&str>) -> Seq<Seq<char>> {
    v.map_values(|s: &str| s@)
}

/// End a run: its removals and additions, paired.
fn flush<'a>(rows: &mut Vec<SideRow<'a>>, dels: &mut Vec<&'a str>, inss: &mut Vec<&'a str>)
    ensures
        final(dels)@.len() == 0,
        final(inss)@.len() == 0,
        cells_of(final(rows)@) == cells_of(old(rows)@) + paired(
            slices(old(dels)@),
            slices(old(inss)@),
        ),
{
    let ghost was = cells_of(rows@);
    let ghost pairs = paired(slices(dels@), slices(inss@));
    let n: usize = if dels.len() < inss.len() {
        inss.len()
    } else {
        dels.len()
    };
    let mut i: usize = 0;
    proof {
        assert(was + pairs.take(0) =~= was);
    }
    while i < n
        invariant
            i <= n,
            n == longer(dels@.len(), inss@.len()),
            pairs == paired(slices(dels@), slices(inss@)),
            cells_of(rows@) == was + pairs.take(i as int),
        decreases n - i,
    {
        let del = if i < dels.len() {
            Some(dels[i])
        } else {
            None
        };
        let ins = if i < inss.len() {
            Some(inss[i])
        } else {
            None
        };
        let ghost before = cells_of(rows@);
        rows.push(SideRow::Change { del, ins });
        proof {
            assert(cells_of(rows@) =~= before.push(cells(SideRow::Change { del, ins })));
            assert(cells(SideRow::Change { del, ins }) == pairs[i as int]);
            assert(pairs.take(i + 1) =~= pairs.take(i as int).push(pairs[i as int]));
            assert(cells_of(rows@) =~= was + pairs.take(i + 1));
        }
        i = i + 1;
    }
    proof {
        assert(pairs.take(i as int) =~= pairs);
    }
    *dels = Vec::new();
    *inss = Vec::new();
}

/// The line without its marker.
fn body<'a>(line: &'a PatchLine) -> (r: &'a str)
    requires
        line.text@.len() > 0,
    ensures
        r@ == line.text@.skip(1),
{
    let t = line.text.as_str();
    let n: usize = t.unicode_len();
    let r = t.substring_char(1, n);
    assert(r@ =~= line.text@.skip(1));
    r
}

proof fn lemma_markers(t: Seq<char>)
    ensures
        "-"@.is_prefix_of(t) ==> t.len() > 0,
        "+"@.is_prefix_of(t) ==> t.len() > 0,
        " "@.is_prefix_of(t) ==> t.len() > 0,
{
    reveal_strlit("-");
    reveal_strlit("+");
    reveal_strlit(" ");
}

/// Fold a unified diff's lines into two-column rows.
///
/// A hunk arrives as a run of removed lines followed by a run of added ones, so
/// the two runs are collected and then paired. A context line ends the pairing
/// before it, and so does every header: a run never spans a hunk boundary.
pub fn side_rows<'a>(lines: &Vec<&'a PatchLine>) -> (r: Vec<SideRow<'a>>)
    ensures
        cells_of(r@) == rows_of(lines@.map_values(|l: &PatchLine| *l)),
{
    let ghost all = lines@.map_values(|l: &PatchLine| *l);
    let mut rows: Vec<SideRow<'a>> = Vec::new();
    let mut dels: Vec<&'a str> = Vec::new();
    let mut inss: Vec<&'a str> = Vec::new();
    let mut i: usize = 0;
    proof {
        assert(all.skip(0) =~= all);
        lemma_rows_begin(all);
        assert(slices(dels@) =~= Seq::empty());
        assert(slices(inss@) =~= Seq::empty());
        assert(cells_of(rows@) + rows_of(all) =~= rows_of(all));
    }
    while i < lines.len()
        invariant
            i <= lines@.len(),
            all == lines@.map_values(|l: &PatchLine| *l),
            rows_of(all) == cells_of(rows@) + rows_from(
                slices(dels@),
                slices(inss@),
                all.skip(i as int),
            ),
        decreases lines@.len() - i,
    {
        let line: &'a PatchLine = lines[i];
        let ghost rest = all.skip(i as int);
        let ghost (d, n, out) = (slices(dels@), slices(inss@), cells_of(rows@));
        proof {
            assert(rest[0] == *line);
            assert(rest.drop_first() =~= all.skip(i + 1));
            lemma_markers(line.text@);
        }
        let t = line.text.as_str();
        if line.kind == LineKind::Delete && has_prefix(t, "-") && !has_prefix(t, "---") {
            dels.push(body(line));
            proof {
                lemma_rows_change(d, n, rest);
                assert(slices(dels@) =~= d.push(t@.skip(1)));
            }
        } else if line.kind == LineKind::Insert && has_prefix(t, "+") && !has_prefix(t, "+++") {
            inss.push(body(line));
            proof {
                lemma_rows_change(d, n, rest);
                assert(slices(inss@) =~= n.push(t@.skip(1)));
            }
        } else {
            proof {
                lemma_rows_lone(d, n, rest);
            }
            flush(&mut rows, &mut dels, &mut inss);
            let ghost before = cells_of(rows@);
            if line.kind == LineKind::Context && has_prefix(t, " ") {
                rows.push(SideRow::Both(body(line)));
            } else {
                rows.push(SideRow::Span(line));
            }
            proof {
                assert(cells_of(rows@) =~= before.push(lone(*line)));
                assert(slices(dels@) =~= Seq::empty());
                assert(slices(inss@) =~= Seq::empty());
                assert(cells_of(rows@) + rows_from(Seq::empty(), Seq::empty(), all.skip(i + 1))
                    =~= out + (paired(d, n) + seq![lone(*line)] + rows_from(
                    Seq::empty(),
                    Seq::empty(),
                    all.skip(i + 1),
                )));
            }
        }
        i = i + 1;
    }
    proof {
        let rest = all.skip(i as int);
        assert(rest.len() == 0);
        assert(rest.take(0) =~= Seq::empty());
        assert(rest.skip(0) =~= rest);
        assert(slices(dels@) + removed(rest.take(0)) =~= slices(dels@));
        assert(slices(inss@) + added(rest.take(0)) =~= slices(inss@));
        assert(rows_from(slices(dels@), slices(inss@), rest) =~= paired(
            slices(dels@),
            slices(inss@),
        ));
    }
    flush(&mut rows, &mut dels, &mut inss);
    rows
}

/// What the left column shows.
pub open spec fn left(rows: Seq<Cells>) -> Seq<Seq<char>>
    decreases rows.len(),
{
    if rows.len() == 0 {
        Seq::empty()
    } else {
        left(rows.drop_last()) + (match rows.last() {
            Cells::Both(t) => seq![t],
            Cells::Change(Some(t), _) => seq![t],
            _ => Seq::empty(),
        })
    }
}

/// What the right column shows.
pub open spec fn right(rows: Seq<Cells>) -> Seq<Seq<char>>
    decreases rows.len(),
{
    if rows.len() == 0 {
        Seq::empty()
    } else {
        right(rows.drop_last()) + (match rows.last() {
            Cells::Both(t) => seq![t],
            Cells::Change(_, Some(t)) => seq![t],
            _ => Seq::empty(),
        })
    }
}

/// The lines of a diff that the old file has.
pub open spec fn old_lines(lines: Seq<PatchLine>) -> Seq<Seq<char>>
    decreases lines.len(),
{
    if lines.len() == 0 {
        Seq::empty()
    } else {
        (match role(lines[0]) {
            Role::Removed(t) => seq![t],
            Role::Kept(t) => seq![t],
            _ => Seq::empty(),
        }) + old_lines(lines.drop_first())
    }
}

/// The lines of a diff that the new file has.
pub open spec fn new_lines(lines: Seq<PatchLine>) -> Seq<Seq<char>>
    decreases lines.len(),
{
    if lines.len() == 0 {
        Seq::empty()
    } else {
        (match role(lines[0]) {
            Role::Added(t) => seq![t],
            Role::Kept(t) => seq![t],
            _ => Seq::empty(),
        }) + new_lines(lines.drop_first())
    }
}

proof fn lemma_columns_concat(a: Seq<Cells>, b: Seq<Cells>)
    ensures
        left(a + b) == left(a) + left(b),
        right(a + b) == right(a) + right(b),
    decreases b.len(),
{
    if b.len() == 0 {
        assert(a + b =~= a);
        assert(left(a) + left(b) =~= left(a));
        assert(right(a) + right(b) =~= right(a));
    } else {
        assert((a + b).drop_last() =~= a + b.drop_last());
        assert((a + b).last() == b.last());
        lemma_columns_concat(a, b.drop_last());
        assert(left(a + b) =~= left(a) + left(b));
        assert(right(a + b) =~= right(a) + right(b));
    }
}

/// `s`, or its first `n`.
spec fn first_of(s: Seq<Seq<char>>, n: int) -> Seq<Seq<char>> {
    if n < s.len() {
        s.take(n)
    } else {
        s
    }
}

proof fn lemma_paired_columns(dels: Seq<Seq<char>>, inss: Seq<Seq<char>>, n: int)
    requires
        0 <= n <= paired(dels, inss).len(),
    ensures
        left(paired(dels, inss).take(n)) == first_of(dels, n),
        right(paired(dels, inss).take(n)) == first_of(inss, n),
    decreases n,
{
    let pairs = paired(dels, inss);
    if n == 0 {
        assert(first_of(dels, 0) =~= Seq::empty());
        assert(first_of(inss, 0) =~= Seq::empty());
    } else {
        lemma_paired_columns(dels, inss, n - 1);
        assert(pairs.take(n).drop_last() =~= pairs.take(n - 1));
        assert(pairs.take(n).last() == pairs[n - 1]);
        assert(left(pairs.take(n)) =~= first_of(dels, n));
        assert(right(pairs.take(n)) =~= first_of(inss, n));
    }
}

proof fn lemma_run_lines(run: Seq<PatchLine>, rest: Seq<PatchLine>)
    requires
        forall|i: int| 0 <= i < run.len() ==> is_change(#[trigger] run[i]),
    ensures
        old_lines(run + rest) == removed(run) + old_lines(rest),
        new_lines(run + rest) == added(run) + new_lines(rest),
    decreases run.len(),
{
    if run.len() == 0 {
        assert(run + rest =~= rest);
        assert(removed(run) + old_lines(rest) =~= old_lines(rest));
        assert(added(run) + new_lines(rest) =~= new_lines(rest));
    } else {
        let all = run + rest;
        assert(all.drop_first() =~= run.drop_first() + rest);
        assert(all[0] == run[0]);
        assert(is_change(run[0]));
        assert forall|i: int| 0 <= i < run.drop_first().len() implies is_change(
            #[trigger] run.drop_first()[i],
        ) by {
            assert(run.drop_first()[i] == run[i + 1]);
        }
        lemma_run_lines(run.drop_first(), rest);
        assert(old_lines(all) =~= removed(run) + old_lines(rest));
        assert(new_lines(all) =~= added(run) + new_lines(rest));
    }
}

/// The left column reads as the old file does and the right column as the new
/// one: no line is lost, doubled or moved.
pub proof fn columns_are_the_two_files(lines: Seq<PatchLine>)
    ensures
        left(rows_of(lines)) == old_lines(lines),
        right(rows_of(lines)) == new_lines(lines),
    decreases lines.len(),
{
    lemma_run_length(lines);
    if lines.len() > 0 {
        let n = run_length(lines);
        if n == 0 {
            let rest = lines.drop_first();
            lemma_run_length(rest);
            assert(!is_change(lines[0]));
            columns_are_the_two_files(rest);
            let one = seq![lone(lines[0])];
            lemma_columns_concat(one, rows_of(rest));
            assert(one.drop_last() =~= Seq::empty());
            assert(one.last() == lone(lines[0]));
            assert(left(Seq::<Cells>::empty()) =~= Seq::empty());
            assert(right(Seq::<Cells>::empty()) =~= Seq::empty());
            assert(left(rows_of(lines)) =~= old_lines(lines));
            assert(right(rows_of(lines)) =~= new_lines(lines));
        } else {
            let run = lines.take(n);
            let rest = lines.skip(n);
            columns_are_the_two_files(rest);
            let pairs = paired(removed(run), added(run));
            lemma_columns_concat(pairs, rows_of(rest));
            lemma_paired_columns(removed(run), added(run), pairs.len() as int);
            assert(pairs.take(pairs.len() as int) =~= pairs);
            assert(run + rest =~= lines);
            lemma_run_lines(run, rest);
        }
    }
}

/// What a line alone is laid out as. A removal stands on the left and an
/// addition on the right, without the marker; a kept line stands on both sides;
/// every other line, `---` and `+++` among them, is laid across them as it is.
pub proof fn markers_say_where_lines_stand(line: PatchLine)
    ensures
        ({
            let t = line.text@;
            let rows = rows_of(seq![line]);
            match line.kind {
                LineKind::Delete => if t.len() > 0 && t[0] == '-' && !(t.len() >= 3 && t[1] == '-'
                    && t[2] == '-') {
                    &&& rows == seq![Cells::Change(Some(t.skip(1)), None)]
                    &&& left(rows) == seq![t.skip(1)]
                    &&& right(rows) == Seq::<Seq<char>>::empty()
                } else {
                    rows == seq![Cells::Span(line)]
                },
                LineKind::Insert => if t.len() > 0 && t[0] == '+' && !(t.len() >= 3 && t[1] == '+'
                    && t[2] == '+') {
                    &&& rows == seq![Cells::Change(None, Some(t.skip(1)))]
                    &&& left(rows) == Seq::<Seq<char>>::empty()
                    &&& right(rows) == seq![t.skip(1)]
                } else {
                    rows == seq![Cells::Span(line)]
                },
                LineKind::Context => if t.len() > 0 && t[0] == ' ' {
                    &&& rows == seq![Cells::Both(t.skip(1))]
                    &&& left(rows) == seq![t.skip(1)]
                    &&& right(rows) == seq![t.skip(1)]
                } else {
                    rows == seq![Cells::Span(line)]
                },
                LineKind::Meta => rows == seq![Cells::Span(line)],
            }
        }),
{
    let t = line.text@;
    let one = seq![line];
    let rest = one.drop_first();
    reveal_strlit("-");
    reveal_strlit("---");
    reveal_strlit("+");
    reveal_strlit("+++");
    reveal_strlit(" ");
    text::lemma_prefix("-"@, t);
    text::lemma_prefix("---"@, t);
    text::lemma_prefix("+"@, t);
    text::lemma_prefix("+++"@, t);
    text::lemma_prefix(" "@, t);
    assert("---"@[0] == '-' && "---"@[1] == '-' && "---"@[2] == '-');
    assert("+++"@[0] == '+' && "+++"@[1] == '+' && "+++"@[2] == '+');
    assert("-"@[0] == '-' && "+"@[0] == '+' && " "@[0] == ' ');
    assert(rest =~= Seq::empty());
    assert(run_length(rest) == 0);
    assert(one[0] == line);
    columns_are_the_two_files(one);
    assert(old_lines(rest) =~= Seq::empty());
    assert(new_lines(rest) =~= Seq::empty());
    if is_change(line) {
        assert(run_length(one) == 1);
        assert(one.take(1) =~= one);
        assert(one.skip(1) =~= Seq::empty());
        assert(removed(rest) =~= Seq::empty());
        assert(added(rest) =~= Seq::empty());
        match role(line) {
            Role::Removed(u) => {
                assert(removed(one) =~= seq![u]);
                assert(added(one) =~= Seq::empty());
            },
            _ => {
                assert(removed(one) =~= Seq::empty());
                assert(added(one) =~= seq![t.skip(1)]);
            },
        }
        assert(rows_of(Seq::<PatchLine>::empty()) =~= Seq::empty());
        assert(rows_of(one) =~= paired(removed(one), added(one)));
        assert(rows_of(one) =~= seq![rows_of(one)[0]]);
    } else {
        assert(rows_of(rest) =~= Seq::empty());
        assert(rows_of(one) =~= seq![lone(line)]);
    }
    assert(left(rows_of(one)) =~= old_lines(one));
    assert(right(rows_of(one)) =~= new_lines(one));
}

proof fn lemma_files_concat(a: Seq<PatchLine>, b: Seq<PatchLine>)
    ensures
        old_lines(a + b) == old_lines(a) + old_lines(b),
        new_lines(a + b) == new_lines(a) + new_lines(b),
    decreases a.len(),
{
    if a.len() == 0 {
        assert(a + b =~= b);
        assert(old_lines(a) + old_lines(b) =~= old_lines(b));
        assert(new_lines(a) + new_lines(b) =~= new_lines(b));
    } else {
        assert((a + b).drop_first() =~= a.drop_first() + b);
        assert((a + b)[0] == a[0]);
        lemma_files_concat(a.drop_first(), b);
        assert(old_lines(a + b) =~= old_lines(a) + old_lines(b));
        assert(new_lines(a + b) =~= new_lines(a) + new_lines(b));
    }
}

/// Each column reads from the top: what it shows of the first lines, and then
/// what it shows of the others.
pub proof fn columns_read_from_the_top(a: Seq<PatchLine>, b: Seq<PatchLine>)
    ensures
        left(rows_of(a + b)) == left(rows_of(a)) + left(rows_of(b)),
        right(rows_of(a + b)) == right(rows_of(a)) + right(rows_of(b)),
{
    columns_are_the_two_files(a);
    columns_are_the_two_files(b);
    columns_are_the_two_files(a + b);
    lemma_files_concat(a, b);
}

proof fn lemma_run_of_changes(lines: Seq<PatchLine>)
    requires
        forall|i: int| 0 <= i < lines.len() ==> is_change(#[trigger] lines[i]),
    ensures
        run_length(lines) == lines.len(),
    decreases lines.len(),
{
    if lines.len() > 0 {
        let rest = lines.drop_first();
        assert forall|i: int| 0 <= i < rest.len() implies is_change(#[trigger] rest[i]) by {
            assert(rest[i] == lines[i + 1]);
        }
        lemma_run_of_changes(rest);
    }
}

/// In a run of changes each row holds the next removal and the next addition;
/// the side that runs out first is blank from there on.
pub proof fn changes_stand_opposite_each_other(lines: Seq<PatchLine>)
    requires
        forall|i: int|
            0 <= i < lines.len() ==> rows_of(seq![#[trigger] lines[i]])[0] is Change,
    ensures
        ({
            let rows = rows_of(lines);
            let dels = left(rows);
            let inss = right(rows);
            &&& rows.len() == dels.len() || rows.len() == inss.len()
            &&& rows.len() >= dels.len()
            &&& rows.len() >= inss.len()
            &&& forall|i: int|
                0 <= i < rows.len() ==> #[trigger] rows[i] == Cells::Change(
                    (if i < dels.len() {
                        Some(dels[i])
                    } else {
                        None
                    }),
                    (if i < inss.len() {
                        Some(inss[i])
                    } else {
                        None
                    }),
                )
        }),
{
    assert forall|i: int| 0 <= i < lines.len() implies is_change(#[trigger] lines[i]) by {
        let one = seq![lines[i]];
        assert(one[0] == lines[i]);
        if !is_change(lines[i]) {
            assert(run_length(one) == 0);
            assert(rows_of(one)[0] == lone(lines[i]));
        }
    }
    lemma_run_of_changes(lines);
    columns_are_the_two_files(lines);
    if lines.len() > 0 {
        assert(lines.take(lines.len() as int) =~= lines);
        assert(lines.skip(lines.len() as int) =~= Seq::empty());
        assert(rows_of(Seq::<PatchLine>::empty()) =~= Seq::empty());
        assert(rows_of(lines) =~= paired(removed(lines), added(lines)));
        lemma_run_lines(lines, Seq::empty());
        assert(lines + Seq::<PatchLine>::empty() =~= lines);
        assert(old_lines(lines) =~= removed(lines));
        assert(new_lines(lines) =~= added(lines));
    }
}

/// A run of changes ends where a line that is none stands: nothing before that
/// line is laid out with anything behind it.
pub proof fn other_lines_end_a_run(a: Seq<PatchLine>, line: PatchLine, b: Seq<PatchLine>)
    requires
        !(rows_of(seq![line])[0] is Change),
    ensures
        rows_of(a + seq![line] + b) == rows_of(a) + rows_of(seq![line]) + rows_of(b),
    decreases a.len(),
{
    let one = seq![line];
    assert(one[0] == line);
    assert(one.drop_first() =~= Seq::empty());
    assert(!is_change(line)) by {
        if is_change(line) {
            lemma_run_of_changes(one);
            assert(one.take(1) =~= one);
            assert(removed(Seq::<PatchLine>::empty()) =~= Seq::empty());
            assert(added(Seq::<PatchLine>::empty()) =~= Seq::empty());
            assert(removed(one).len() + added(one).len() == 1);
            assert(rows_of(one)[0] == paired(removed(one), added(one))[0]);
        }
    }
    assert(run_length(one) == 0);
    assert(rows_of(Seq::<PatchLine>::empty()) =~= Seq::empty());
    assert(rows_of(one) =~= seq![lone(line)]);
    let all = a + one + b;
    if a.len() == 0 {
        assert(all[0] == line);
        assert(run_length(all) == 0);
        assert(all.drop_first() =~= b);
        assert(rows_of(all) =~= rows_of(a) + rows_of(one) + rows_of(b));
    } else {
        lemma_run_before(a, one + b);
        assert(a + (one + b) =~= all);
        lemma_run_length(a);
        let n = run_length(a);
        assert(all[0] == a[0]);
        if n == 0 {
            assert(all.drop_first() =~= a.drop_first() + one + b);
            other_lines_end_a_run(a.drop_first(), line, b);
            assert(rows_of(all) =~= rows_of(a) + rows_of(one) + rows_of(b));
        } else {
            assert(all.take(n) =~= a.take(n));
            assert(all.skip(n) =~= a.skip(n) + one + b);
            other_lines_end_a_run(a.skip(n), line, b);
            assert(rows_of(all) =~= rows_of(a) + rows_of(one) + rows_of(b));
        }
    }
}

proof fn lemma_run_before(a: Seq<PatchLine>, b: Seq<PatchLine>)
    requires
        b.len() > 0,
        !is_change(b[0]),
    ensures
        run_length(a + b) == run_length(a),
    decreases a.len(),
{
    if a.len() == 0 {
        assert(a + b =~= b);
    } else {
        assert((a + b)[0] == a[0]);
        assert((a + b).drop_first() =~= a.drop_first() + b);
        lemma_run_before(a.drop_first(), b);
    }
}

} // verus!
