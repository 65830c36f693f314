//! The index as lines of text, for a reader.

use crate::index::{todo_views, EntryView, Index, Todo, TodoView};
use vstd::prelude::*;

verus! {

/// The character that stands for a digit.
pub open spec fn digit(d: nat) -> char {
    if d == 0 {
        '0'
    } else if d == 1 {
        '1'
    } else if d == 2 {
        '2'
    } else if d == 3 {
        '3'
    } else if d == 4 {
        '4'
    } else if d == 5 {
        '5'
    } else if d == 6 {
        '6'
    } else if d == 7 {
        '7'
    } else if d == 8 {
        '8'
    } else {
        '9'
    }
}

/// A number in decimal notation, without leading zeros.
pub open spec fn decimal(n: nat) -> Seq<char>
    decreases n,
{
    if n < 10 {
        seq![digit(n)]
    } else {
        decimal(n / 10).push(digit(n % 10))
    }
}

/// The line that announces the annotations of a file.
pub open spec fn header_line(count: nat, path: Seq<char>) -> Seq<char> {
    decimal(count) + " TODOs in "@ + path
}

/// The line that shows one annotation.
pub open spec fn todo_line(todo: TodoView) -> Seq<char> {
    "    "@ + decimal(todo.line) + ": TODO("@ + todo.author + "): "@ + todo.body
}

/// The lines of a file's annotations, in order.
pub open spec fn todo_lines(todos: Seq<TodoView>) -> Seq<Seq<char>> {
    Seq::new(todos.len(), |i: int| todo_line(todos[i]))
}

/// The lines of one row: none for a file without annotations, else the
/// header and one line for each annotation.
pub open spec fn entry_lines(row: EntryView) -> Seq<Seq<char>> {
    if row.todos.len() == 0 {
        Seq::empty()
    } else {
        seq![header_line(row.todos.len(), row.relative_path)] + todo_lines(row.todos)
    }
}

/// The lines of all rows, in the order of the rows.
pub open spec fn report_lines(rows: Seq<EntryView>) -> Seq<Seq<char>>
    decreases rows.len(),
{
    if rows.len() == 0 {
        Seq::empty()
    } else {
        report_lines(rows.drop_last()) + entry_lines(rows.last())
    }
}

/// The texts of a sequence of lines.
pub open spec fn line_views(lines: Seq<String>) -> Seq<Seq<char>> {
    Seq::new(lines.len(), |i: int| lines[i]@)
}

/// The text of one digit.
fn digit_text(d: usize) -> (r: &'static str)
    requires
        d < 10,
    ensures
        r@ =~= seq![digit(d as nat)],
{
    proof {
        reveal_strlit("0");
        reveal_strlit("1");
        reveal_strlit("2");
        reveal_strlit("3");
        reveal_strlit("4");
        reveal_strlit("5");
        reveal_strlit("6");
        reveal_strlit("7");
        reveal_strlit("8");
        reveal_strlit("9");
    }
    if d == 0 {
        "0"
    } else if d == 1 {
        "1"
    } else if d == 2 {
        "2"
    } else if d == 3 {
        "3"
    } else if d == 4 {
        "4"
    } else if d == 5 {
        "5"
    } else if d == 6 {
        "6"
    } else if d == 7 {
        "7"
    } else if d == 8 {
        "8"
    } else {
        "9"
    }
}

/// `n` in decimal notation.
pub fn decimal_text(n: usize) -> (r: String)
    ensures
        r@ == decimal(n as nat),
    decreases n,
{
    if n < 10 {
        digit_text(n).to_owned()
    } else {
        let mut s = decimal_text(n / 10);
        s.append(digit_text(n % 10));
        assert(s@ =~= decimal((n / 10) as nat).push(digit((n % 10) as nat)));
        s
    }
}

/// The line that announces `count` annotations in the file at `path`.
pub fn header(count: usize, path: &str) -> (r: String)
    ensures
        r@ == header_line(count as nat, path@),
{
    let mut s = decimal_text(count);
    s.append(" TODOs in ");
    s.append(path);
    s
}

/// The line that shows `todo`.
pub fn render_todo(todo: &Todo) -> (r: String)
    ensures
        r@ == todo_line(todo@),
{
    let mut s = "    ".to_owned();
    let number = decimal_text(todo.line);
    s.append(number.as_str());
    s.append(": TODO(");
    s.append(todo.author.as_str());
    s.append("): ");
    s.append(todo.body.as_str());
    s
}

/// The lines that show the index: for each file with annotations a header
/// and a line for each annotation.
pub fn report_index(index: &Index) -> (lines: Vec<String>)
    ensures
        line_views(lines@) == report_lines(index.rows()),
{
    let mut lines: Vec<String> = Vec::new();
    let mut i: usize = 0;
    assert(index.rows().take(0) =~= Seq::<EntryView>::empty());
    assert(line_views(lines@) =~= Seq::<Seq<char>>::empty());
    while i < index.entries.len()
        invariant
            i <= index.entries@.len(),
            line_views(lines@) == report_lines(index.rows().take(i as int)),
        decreases index.entries@.len() - i,
    {
        let entry = &index.entries[i];
        let ghost done = line_views(lines@);
        let ghost row = index.rows()[i as int];
        assert(row == entry@);
        if entry.todos.len() > 0 {
            let first = header(entry.todos.len(), entry.relative_path.as_str());
            lines.push(first);
            assert(line_views(lines@) =~= done + seq![
                header_line(row.todos.len(), row.relative_path),
            ] + todo_lines(row.todos).take(0));
            let mut j: usize = 0;
            while j < entry.todos.len()
                invariant
                    j <= entry.todos@.len(),
                    row == entry@,
                    line_views(lines@) == done + seq![
                        header_line(row.todos.len(), row.relative_path),
                    ] + todo_lines(row.todos).take(j as int),
                decreases entry.todos@.len() - j,
            {
                let ghost so_far = line_views(lines@);
                let line = render_todo(&entry.todos[j]);
                lines.push(line);
                assert(line_views(lines@) =~= so_far.push(todo_line(row.todos[j as int])));
                assert(todo_lines(row.todos).take(j + 1) =~= todo_lines(row.todos).take(
                    j as int,
                ).push(todo_line(row.todos[j as int])));
                assert(line_views(lines@) =~= done + seq![
                    header_line(row.todos.len(), row.relative_path),
                ] + todo_lines(row.todos).take(j + 1));
                j += 1;
            }
            assert(todo_lines(row.todos).take(j as int) =~= todo_lines(row.todos));
            assert(line_views(lines@) =~= done + entry_lines(row));
        } else {
            assert(line_views(lines@) =~= done + entry_lines(row));
        }
        proof {
            let next = index.rows().take(i + 1);
            assert(next.drop_last() =~= index.rows().take(i as int));
            assert(next.last() == row);
        }
        i += 1;
    }
    assert(index.rows().take(i as int) =~= index.rows());
    lines
}

} // verus!
