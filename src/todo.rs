use vstd::prelude::*;
use vstd::string::*;

use crate::search::{replace_matches, replaced_from, str_eq};

verus! {

/// Whether a todo item is still open.
#[derive(Clone, Copy, Debug, PartialEq, Eq, Structural)]
pub enum Status {
    Ongoing,
    Done,
}

/// The todo list: open items and finished items, in file order.
#[derive(Clone, Debug)]
pub struct Todos {
    pub ongoing: Vec<String>,
    pub done: Vec<String>,
}

pub open spec fn ongoing_prefix() -> Seq<char> {
    "ongoing: "@
}

pub open spec fn done_prefix() -> Seq<char> {
    "done: "@
}

/// A file line read as an item: `ongoing: title` or `done: title`.
pub open spec fn parsed_item(line: Seq<char>) -> Option<(Status, Seq<char>)> {
    if line.len() >= 9 && line.take(9) == ongoing_prefix() {
        Some((Status::Ongoing, line.skip(9)))
    } else if line.len() >= 6 && line.take(6) == done_prefix() {
        Some((Status::Done, line.skip(6)))
    } else {
        None
    }
}

fn strip_prefix<'a>(line: &'a str, prefix: &str) -> (r: Option<&'a str>)
    ensures
        match r {
            Some(rest) => line@.len() >= prefix@.len() && line@.take(prefix@.len() as int) == prefix@
                && rest@ == line@.skip(prefix@.len() as int),
            None => !(line@.len() >= prefix@.len() && line@.take(prefix@.len() as int) == prefix@),
        },
{
    let n = line.unicode_len();
    let m = prefix.unicode_len();
    if n < m {
        return None;
    }
    if !str_eq(line.substring_char(0, m), prefix) {
        assert(line@.subrange(0, m as int) =~= line@.take(m as int));
        return None;
    }
    assert(line@.subrange(0, m as int) =~= line@.take(m as int));
    let rest = line.substring_char(m, n);
    assert(rest@ =~= line@.skip(m as int));
    Some(rest)
}

/// Reads one line of the todo file.
pub fn parse_item(line: &str) -> (r: Option<(Status, &str)>)
    ensures
        match r {
            Some((status, title)) => parsed_item(line@) == Some((status, title@)),
            None => parsed_item(line@) is None,
        },
{
    proof {
        reveal_strlit("ongoing: ");
        reveal_strlit("done: ");
    }
    match strip_prefix(line, "ongoing: ") {
        Some(title) => Some((Status::Ongoing, title)),
        None => match strip_prefix(line, "done: ") {
            Some(title) => Some((Status::Done, title)),
            None => None,
        },
    }
}

/// The titles of the first `n` lines that are items of the given status.
pub open spec fn titles_with(lines: Seq<Seq<char>>, status: Status, n: nat) -> Seq<Seq<char>>
    decreases n,
{
    if n == 0 {
        Seq::empty()
    } else {
        let prev = titles_with(lines, status, (n - 1) as nat);
        match parsed_item(lines[n - 1]) {
            Some((s, title)) => if s == status {
                prev.push(title)
            } else {
                prev
            },
            None => prev,
        }
    }
}

pub open spec fn string_views(v: Seq<String>) -> Seq<Seq<char>> {
    v.map_values(|s: String| s@)
}

/// Reads the todo file's lines; lines that are not items are skipped.
pub fn parse_todos(lines: &Vec<String>) -> (r: Todos)
    ensures
        string_views(r.ongoing@) == titles_with(string_views(lines@), Status::Ongoing, lines@.len()),
        string_views(r.done@) == titles_with(string_views(lines@), Status::Done, lines@.len()),
{
    let ghost ls = string_views(lines@);
    let mut ongoing: Vec<String> = Vec::new();
    let mut done: Vec<String> = Vec::new();
    let mut i: usize = 0;
    while i < lines.len()
        invariant
            ls == string_views(lines@),
            i <= lines@.len(),
            string_views(ongoing@) == titles_with(ls, Status::Ongoing, i as nat),
            string_views(done@) == titles_with(ls, Status::Done, i as nat),
        decreases lines@.len() - i,
    {
        assert(ls[i as int] == lines@[i as int]@);
        let ghost before_ongoing = string_views(ongoing@);
        let ghost before_done = string_views(done@);
        match parse_item(lines[i].as_str()) {
            Some((Status::Ongoing, title)) => {
                ongoing.push(String::from_str(title));
                assert(string_views(ongoing@) =~= before_ongoing.push(title@));
            },
            Some((Status::Done, title)) => {
                done.push(String::from_str(title));
                assert(string_views(done@) =~= before_done.push(title@));
            },
            None => {},
        }
        i = i + 1;
    }
    Todos { ongoing, done }
}

/// Each title on a line of its own, after `prefix`.
pub open spec fn rendered(prefix: Seq<char>, titles: Seq<Seq<char>>) -> Seq<char>
    decreases titles.len(),
{
    if titles.len() == 0 {
        Seq::empty()
    } else {
        rendered(prefix, titles.drop_last()) + prefix + titles.last() + "\n"@
    }
}

fn append_items(out: &mut String, prefix: &str, titles: &Vec<String>, from: usize, to: usize)
    requires
        from <= to <= titles@.len(),
    ensures
        final(out)@ == old(out)@ + rendered(prefix@, string_views(titles@).subrange(from as int, to as int)),
{
    let ghost start = out@;
    let ghost views = string_views(titles@);
    let mut i: usize = from;
    while i < to
        invariant
            from <= i <= to <= titles@.len(),
            views == string_views(titles@),
            out@ == start + rendered(prefix@, views.subrange(from as int, i as int)),
        decreases to - i,
    {
        out.append(prefix);
        out.append(titles[i].as_str());
        out.append("\n");
        assert(views.subrange(from as int, i + 1).drop_last() =~= views.subrange(from as int, i as int));
        assert(views.subrange(from as int, i + 1).last() == titles@[i as int]@);
        assert(out@ =~= start + rendered(prefix@, views.subrange(from as int, i + 1)));
        i = i + 1;
    }
}

/// The todo file for a list: the open items, then the finished ones.
pub fn render_todos(todos: &Todos) -> (r: String)
    ensures
        r@ == rendered(ongoing_prefix(), string_views(todos.ongoing@)) + rendered(
            done_prefix(),
            string_views(todos.done@),
        ),
{
    proof {
        reveal_strlit("ongoing: ");
        reveal_strlit("done: ");
    }
    let mut out = String::new();
    append_items(&mut out, "ongoing: ", &todos.ongoing, 0, todos.ongoing.len());
    append_items(&mut out, "done: ", &todos.done, 0, todos.done.len());
    assert(string_views(todos.ongoing@).subrange(0, todos.ongoing@.len() as int) =~= string_views(todos.ongoing@));
    assert(string_views(todos.done@).subrange(0, todos.done@.len() as int) =~= string_views(todos.done@));
    assert(out@ =~= rendered(ongoing_prefix(), string_views(todos.ongoing@)) + rendered(
        done_prefix(),
        string_views(todos.done@),
    ));
    out
}

/// `s` with every occurrence of `from` replaced by `to`, as `str::replace`
/// does it.
pub open spec fn replaced(s: Seq<char>, from: Seq<char>, to: Seq<char>) -> Seq<char> {
    replaced_from(s, from, to, 0)
}

/// The line that an open item becomes once it is marked done.
pub open spec fn done_line(title: Seq<char>) -> Seq<char> {
    replaced(done_prefix() + ongoing_prefix() + title + "\n"@, " ongoing:"@, Seq::empty())
}

/// The todo file with the open item at `index` written as `line`, in place.
pub open spec fn rendered_with_line(todos: Seq<Seq<char>>, done: Seq<Seq<char>>, index: int, line: Seq<char>) -> Seq<char> {
    rendered(ongoing_prefix(), todos.subrange(0, index)) + line + rendered(
        ongoing_prefix(),
        todos.subrange(index + 1, todos.len() as int),
    ) + rendered(done_prefix(), done)
}

/// The todo file with the open item at `index` replaced by `line`.
pub fn render_with_line(todos: &Todos, index: usize, line: &str) -> (r: String)
    requires
        index < todos.ongoing@.len(),
    ensures
        r@ == rendered_with_line(string_views(todos.ongoing@), string_views(todos.done@), index as int, line@),
{
    proof {
        reveal_strlit("ongoing: ");
        reveal_strlit("done: ");
    }
    let mut out = String::new();
    let n = todos.ongoing.len();
    append_items(&mut out, "ongoing: ", &todos.ongoing, 0, index);
    out.append(line);
    append_items(&mut out, "ongoing: ", &todos.ongoing, index + 1, n);
    append_items(&mut out, "done: ", &todos.done, 0, todos.done.len());
    assert(string_views(todos.done@).subrange(0, todos.done@.len() as int) =~= string_views(todos.done@));
    assert(out@ =~= rendered_with_line(string_views(todos.ongoing@), string_views(todos.done@), index as int, line@));
    out
}

/// The todo file once the open item at `index` is marked done: it keeps its
/// place and reads `done: title`.
pub fn mark_done(todos: &Todos, index: usize) -> (r: String)
    requires
        index < todos.ongoing@.len(),
    ensures
        r@ == rendered_with_line(
            string_views(todos.ongoing@),
            string_views(todos.done@),
            index as int,
            done_line(todos.ongoing@[index as int]@),
        ),
{
    proof {
        reveal_strlit("ongoing: ");
        reveal_strlit("done: ");
    }
    let mut raw = String::from_str("done: ");
    raw.append("ongoing: ");
    raw.append(todos.ongoing[index].as_str());
    raw.append("\n");
    proof {
        reveal_strlit("");
    }
    assert(raw@ =~= done_prefix() + ongoing_prefix() + todos.ongoing@[index as int]@ + "\n"@);
    assert(""@ =~= Seq::<char>::empty());
    let line = replace_matches(raw.as_str(), " ongoing:", "");
    assert(line@ == done_line(todos.ongoing@[index as int]@));
    render_with_line(todos, index, line.as_str())
}

} // verus!
