//! Processes: the rows of `ps` output that the top lists show, and the
//! command line that names a process.
use vstd::prelude::*;
use crate::text::{
    chars_equal, line_spans, lines, spans_locate, split, split_spans, to_chars, to_string,
    word_spans, words,
};

verus! {

/// The last piece of a path split at `/` that is neither empty nor `.`.
pub open spec fn last_component(pieces: Seq<Seq<char>>) -> Option<Seq<char>>
    decreases pieces.len(),
{
    if pieces.len() == 0 {
        None
    } else if pieces.last().len() == 0 || pieces.last() == "."@ {
        last_component(pieces.drop_last())
    } else {
        Some(pieces.last())
    }
}

/// `Path::file_name`: the last component of a path, unless that is `..` or
/// there is none.
pub open spec fn file_name(path: Seq<char>) -> Option<Seq<char>> {
    match last_component(split(path, '/')) {
        Some(c) => if c == ".."@ {
            None
        } else {
            Some(c)
        },
        None => None,
    }
}

/// A process that the monitor runs itself: one whose program file is `ps`.
pub open spec fn is_helper(name: Seq<char>) -> bool {
    file_name(name) == Some("ps"@)
}

/// Whether `name`, a command as `ps` prints it, is the `ps` helper itself.
pub fn is_helper_process(name: &str) -> (b: bool)
    ensures
        b == is_helper(name@),
{
    let cs = to_chars(name);
    let pieces = split_spans(cs.as_slice(), '/');
    let ghost ps = split(cs@, '/');
    let dot = to_chars(".");
    let ps_word = to_chars("ps");
    let dots = to_chars("..");
    let mut k: usize = pieces.len();
    assert(ps.take(ps.len() as int) == ps);
    while k > 0
        invariant
            cs@ == name@,
            ps == split(cs@, '/'),
            spans_locate(cs@, pieces@, ps),
            dot@ == "."@,
            dots@ == ".."@,
            ps_word@ == "ps"@,
            k <= pieces@.len(),
            last_component(ps) == last_component(ps.take(k as int)),
        decreases k,
    {
        let (a, b) = pieces[k - 1];
        let piece = &cs.as_slice()[a..b];
        assert(piece@ == ps[k - 1]);
        assert(ps.take(k as int).last() == ps[k - 1]);
        assert(ps.take(k as int).drop_last() == ps.take(k - 1));
        if a == b || chars_equal(piece, dot.as_slice()) {
            k = k - 1;
        } else {
            if chars_equal(piece, dots.as_slice()) {
                return false;
            }
            return chars_equal(piece, ps_word.as_slice());
        }
    }
    false
}

/// The first non-empty argument of a NUL-separated command line.
pub open spec fn first_nonempty(pieces: Seq<Seq<char>>) -> Option<Seq<char>>
    decreases pieces.len(),
{
    if pieces.len() == 0 {
        None
    } else if pieces[0].len() > 0 {
        Some(pieces[0])
    } else {
        first_nonempty(pieces.drop_first())
    }
}

/// The command that names a process: the first non-empty argument of its
/// `/proc/<pid>/cmdline` text, else the target of its `exe` link where that
/// could be read, else `fallback`.
pub open spec fn command_of(cmdline: Seq<char>, exe: Option<Seq<char>>, fallback: Seq<char>) -> Seq<
    char,
> {
    match first_nonempty(split(cmdline, '\0')) {
        Some(arg) => arg,
        None => match exe {
            Some(path) => path,
            None => fallback,
        },
    }
}

pub fn process_command(cmdline: &str, exe: Option<&str>, fallback: &str) -> (r: String)
    ensures
        r@ == command_of(
            cmdline@,
            match exe {
                Some(p) => Some(p@),
                None => None,
            },
            fallback@,
        ),
{
    let cs = to_chars(cmdline);
    let pieces = split_spans(cs.as_slice(), '\0');
    let ghost ps = split(cs@, '\0');
    let mut k: usize = 0;
    assert(ps.skip(0) == ps);
    while k < pieces.len()
        invariant
            cs@ == cmdline@,
            ps == split(cs@, '\0'),
            spans_locate(cs@, pieces@, ps),
            k <= pieces@.len(),
            first_nonempty(ps) == first_nonempty(ps.skip(k as int)),
        decreases pieces.len() - k,
    {
        let (a, b) = pieces[k];
        assert(cs@.subrange(a as int, b as int) == ps[k as int]);
        assert(ps.skip(k as int)[0] == ps[k as int]);
        if a < b {
            return to_string(&cs.as_slice()[a..b]);
        }
        assert(ps.skip(k as int).drop_first() == ps.skip(k + 1));
        k = k + 1;
    }
    match exe {
        Some(p) => String::from_str(p),
        None => String::from_str(fallback),
    }
}

/// A row of `ps aux` output that the top lists keep: the command (column 10)
/// and the text of the column asked for.
#[derive(Debug)]
pub struct PsRow {
    pub name: String,
    pub value: String,
}

/// The row that a line of `ps aux` output gives: it needs at least eleven
/// columns, and is dropped where the command is the `ps` helper.
pub open spec fn ps_row(line: Seq<char>, column: int) -> Option<(Seq<char>, Seq<char>)> {
    let ws = words(line);
    if ws.len() < 11 || is_helper(ws[10]) {
        None
    } else {
        Some((ws[10], ws[column]))
    }
}

/// The rows of all lines, in order.
pub open spec fn ps_rows(ls: Seq<Seq<char>>, column: int) -> Seq<(Seq<char>, Seq<char>)>
    decreases ls.len(),
{
    if ls.len() == 0 {
        Seq::empty()
    } else {
        let r = ps_rows(ls.drop_last(), column);
        match ps_row(ls.last(), column) {
            Some(row) => r.push(row),
            None => r,
        }
    }
}

/// No row is the `ps` helper, and every row comes from a line with at least
/// eleven columns.
pub proof fn law_rows_exclude_helper(ls: Seq<Seq<char>>, column: int)
    ensures
        forall|i: int|
            0 <= i < ps_rows(ls, column).len() ==> !is_helper(#[trigger] ps_rows(ls, column)[i].0),
    decreases ls.len(),
{
    if ls.len() > 0 {
        law_rows_exclude_helper(ls.drop_last(), column);
        let r = ps_rows(ls.drop_last(), column);
        assert forall|i: int| 0 <= i < ps_rows(ls, column).len() implies !is_helper(
            #[trigger] ps_rows(ls, column)[i].0,
        ) by {
            if i < r.len() {
                assert(ps_rows(ls, column)[i] == r[i]);
            }
        }
    }
}

pub open spec fn row_pairs(rows: Seq<PsRow>) -> Seq<(Seq<char>, Seq<char>)> {
    rows.map_values(|r: PsRow| (r.name@, r.value@))
}

/// At most the first twenty rows of `ps aux` output (no header), each with
/// the text of column `column`.
pub fn top_process_rows(output: &str, column: usize) -> (rows: Vec<PsRow>)
    requires
        column < 11,
    ensures
        row_pairs(rows@) == if ps_rows(lines(output@), column as int).len() <= 20 {
            ps_rows(lines(output@), column as int)
        } else {
            ps_rows(lines(output@), column as int).take(20)
        },
        rows@.len() <= 20,
{
    let cs = to_chars(output);
    let spans = line_spans(cs.as_slice());
    let ghost ls = lines(cs@);
    let mut rows: Vec<PsRow> = Vec::new();
    let mut k: usize = 0;
    assert(ls.take(0) =~= Seq::<Seq<char>>::empty());
    assert(row_pairs(rows@) =~= Seq::<(Seq<char>, Seq<char>)>::empty());
    while k < spans.len()
        invariant
            cs@ == output@,
            ls == lines(cs@),
            spans_locate(cs@, spans@, ls),
            column < 11,
            k <= spans@.len(),
            row_pairs(rows@) == ps_rows(ls.take(k as int), column as int),
        decreases spans.len() - k,
    {
        let (a, b) = spans[k];
        let line = &cs.as_slice()[a..b];
        assert(line@ == ls[k as int]);
        assert(ls.take(k + 1).drop_last() == ls.take(k as int));
        assert(ls.take(k + 1).last() == ls[k as int]);
        let ws = word_spans(line);
        if ws.len() >= 11 {
            let (na, nb) = ws[10];
            let name = to_string(&line[na..nb]);
            if !is_helper_process(name.as_str()) {
                let (va, vb) = ws[column];
                let row = PsRow { name, value: to_string(&line[va..vb]) };
                let ghost before = rows@;
                rows.push(row);
                assert(row_pairs(rows@) =~= row_pairs(before).push((words(line@)[10], words(line@)[column as int])));
            }
        }
        k = k + 1;
    }
    assert(ls.take(ls.len() as int) == ls);
    let ghost all = rows@;
    rows.truncate(20);
    assert(row_pairs(rows@) =~= if row_pairs(all).len() <= 20 {
        row_pairs(all)
    } else {
        row_pairs(all).take(20)
    });
    rows
}

} // verus!
