//! Folding script lines into complete SQL statements.
//!
//! A line that starts with `//` is a comment and a line that is empty once
//! trimmed is blank; both are skipped. Any other line is content: it is added
//! to the statement under construction, and the statement is complete on the
//! first content line that holds a `;`. Lines before that one are joined with
//! a newline. A fragment with no closing `;` at the end of the script is never
//! emitted.

use vstd::prelude::*;
use crate::text::{substring, trim, trim_ws};

verus! {

/// The character that ends a statement.
pub open spec fn terminator() -> char {
    ';'
}

/// A line whose first two characters are `//`.
pub open spec fn is_comment_line(line: Seq<char>) -> bool {
    line.len() >= 2 && line[0] == '/' && line[1] == '/'
}

/// A line that is empty once whitespace is trimmed from both ends.
pub open spec fn is_blank_line(line: Seq<char>) -> bool {
    trim_ws(line).len() == 0
}

/// A line that is neither a comment nor blank.
pub open spec fn is_content_line(line: Seq<char>) -> bool {
    !is_comment_line(line) && !is_blank_line(line)
}

/// A line that holds the terminator anywhere in it.
pub open spec fn has_terminator(line: Seq<char>) -> bool {
    line.contains(terminator())
}

/// One line folded into the buffer: the new buffer, and the statement that
/// the line completes, if it completes one.
pub open spec fn assemble_step(buffer: Seq<char>, line: Seq<char>) -> (Seq<char>, Option<Seq<char>>) {
    if !is_content_line(line) {
        (buffer, None)
    } else if has_terminator(line) {
        (Seq::empty(), Some(buffer + line))
    } else {
        (buffer + line + seq!['\n'], None)
    }
}

/// The buffer left and the statements emitted, in order, after the lines
/// have been folded one by one into an empty buffer.
pub open spec fn assembled(lines: Seq<Seq<char>>) -> (Seq<char>, Seq<Seq<char>>)
    decreases lines.len(),
{
    if lines.len() == 0 {
        (Seq::empty(), Seq::empty())
    } else {
        let prev = assembled(lines.drop_last());
        let (buffer, out) = assemble_step(prev.0, lines.last());
        match out {
            Some(statement) => (buffer, prev.1.push(statement)),
            None => (buffer, prev.1),
        }
    }
}

/// The statements that a script of these lines yields, in order.
pub open spec fn statements_of(lines: Seq<Seq<char>>) -> Seq<Seq<char>> {
    assembled(lines).1
}

/// The unterminated text left over after these lines.
pub open spec fn pending_of(lines: Seq<Seq<char>>) -> Seq<char> {
    assembled(lines).0
}

/// The character sequences of a sequence of strings.
pub open spec fn views_of(v: Seq<String>) -> Seq<Seq<char>> {
    v.map_values(|s: String| s@)
}

/// The character sequence of an optional string.
pub open spec fn opt_view(o: Option<String>) -> Option<Seq<char>> {
    match o {
        Some(s) => Some(s@),
        None => None,
    }
}

/// How a line of a script is treated.
#[derive(Clone, Copy, Debug, PartialEq, Eq, Structural)]
pub enum LineKind {
    Comment,
    Blank,
    Content,
}

/// The kind of a line: a comment first, then blank, else content.
pub open spec fn kind_of(line: Seq<char>) -> LineKind {
    if is_comment_line(line) {
        LineKind::Comment
    } else if is_blank_line(line) {
        LineKind::Blank
    } else {
        LineKind::Content
    }
}

/// Tells comment, blank and content lines apart.
pub fn classify_line(line: &str) -> (r: LineKind)
    ensures
        r == kind_of(line@),
{
    let head = substring(line, 0, 2);
    if head.unicode_len() == 2 && head.get_char(0) == '/' && head.get_char(1) == '/' {
        LineKind::Comment
    } else if trim(line).unicode_len() == 0 {
        LineKind::Blank
    } else {
        LineKind::Content
    }
}

/// Whether the line holds the terminator.
pub fn contains_terminator(line: &str) -> (r: bool)
    ensures
        r == has_terminator(line@),
{
    let n = line.unicode_len();
    let mut i: usize = 0;
    while i < n
        invariant
            i <= n,
            n == line@.len(),
            forall|k: int| 0 <= k < i ==> line@[k] != terminator(),
        decreases n - i,
    {
        if line.get_char(i) == ';' {
            assert(line@[i as int] == terminator());
            return true;
        }
        i = i + 1;
    }
    false
}

/// The statement under construction; lines are handed to it one at a time,
/// so a script is read only as far as it is consumed.
pub struct Assembler {
    buffer: String,
}

impl View for Assembler {
    type V = Seq<char>;

    closed spec fn view(&self) -> Seq<char> {
        self.buffer@
    }
}

impl Assembler {
    /// An assembler with an empty buffer.
    pub fn new() -> (r: Assembler)
        ensures
            r@ == Seq::<char>::empty(),
    {
        Assembler { buffer: String::new() }
    }

    /// The text gathered so far for a statement that is not yet complete.
    pub fn pending(&self) -> (r: &str)
        ensures
            r@ == self@,
    {
        self.buffer.as_str()
    }

    /// Folds one line into the buffer; returns the statement that the line
    /// completes, and then the buffer is empty again.
    pub fn push_line(&mut self, line: &str) -> (r: Option<String>)
        ensures
            final(self)@ == assemble_step(old(self)@, line@).0,
            opt_view(r) == assemble_step(old(self)@, line@).1,
    {
        if classify_line(line) != LineKind::Content {
            return None;
        }
        if contains_terminator(line) {
            self.buffer.append(line);
            let statement = self.buffer.clone();
            self.buffer = String::new();
            Some(statement)
        } else {
            self.buffer.append(line);
            proof {
                reveal_strlit("\n");
            }
            self.buffer.append("\n");
            None
        }
    }
}

/// All the statements that the lines yield, in order. A trailing fragment
/// without a terminator is dropped.
pub fn assemble(lines: &Vec<String>) -> (r: Vec<String>)
    ensures
        views_of(r@) == statements_of(views_of(lines@)),
{
    let mut assembler = Assembler::new();
    let mut out: Vec<String> = Vec::new();
    let n = lines.len();
    let mut i: usize = 0;
    while i < n
        invariant
            i <= n,
            n == lines@.len(),
            assembler@ == pending_of(views_of(lines@.take(i as int))),
            views_of(out@) == statements_of(views_of(lines@.take(i as int))),
        decreases n - i,
    {
        let ghost before = views_of(lines@.take(i as int));
        let ghost after = views_of(lines@.take(i + 1));
        assert(after.drop_last() =~= before);
        assert(after.last() == lines@[i as int]@);
        let r = assembler.push_line(lines[i].as_str());
        match r {
            Some(statement) => {
                out.push(statement);
                assert(views_of(out@) =~= statements_of(before).push(statement@));
            },
            None => {},
        }
        i = i + 1;
    }
    assert(lines@.take(n as int) =~= lines@);
    out
}

/// The lines joined with a newline between each two.
pub open spec fn join_lines(lines: Seq<Seq<char>>) -> Seq<char>
    decreases lines.len(),
{
    if lines.len() == 0 {
        Seq::empty()
    } else if lines.len() == 1 {
        lines[0]
    } else {
        join_lines(lines.drop_last()) + seq!['\n'] + lines.last()
    }
}

/// What follows a prefix of the script depends on the prefix only through
/// the buffer it leaves and the statements it yields.
pub proof fn lemma_assembled_extends(p: Seq<Seq<char>>, q: Seq<Seq<char>>, rest: Seq<Seq<char>>)
    requires
        assembled(p) == assembled(q),
    ensures
        assembled(p + rest) == assembled(q + rest),
    decreases rest.len(),
{
    if rest.len() == 0 {
        assert(p + rest =~= p);
        assert(q + rest =~= q);
    } else {
        lemma_assembled_extends(p, q, rest.drop_last());
        assert((p + rest).drop_last() =~= p + rest.drop_last());
        assert((q + rest).drop_last() =~= q + rest.drop_last());
        assert((p + rest).last() == rest.last());
        assert((q + rest).last() == rest.last());
    }
}

/// A comment line yields nothing and leaves the statement boundaries of the
/// lines around it as they would be without it.
pub proof fn lemma_comment_line_is_ignored(
    before: Seq<Seq<char>>,
    comment: Seq<char>,
    after: Seq<Seq<char>>,
)
    requires
        is_comment_line(comment),
    ensures
        assembled(before.push(comment) + after) == assembled(before + after),
{
    assert(before.push(comment).drop_last() =~= before);
    lemma_assembled_extends(before.push(comment), before, after);
}

/// A script of blank lines only yields no statement and leaves nothing
/// pending.
pub proof fn lemma_blank_script_yields_nothing(lines: Seq<Seq<char>>)
    requires
        forall|i: int| 0 <= i < lines.len() ==> is_blank_line(#[trigger] lines[i]),
    ensures
        statements_of(lines).len() == 0,
        pending_of(lines).len() == 0,
    decreases lines.len(),
{
    if lines.len() > 0 {
        let prefix = lines.drop_last();
        assert forall|i: int| 0 <= i < prefix.len() implies is_blank_line(#[trigger] prefix[i]) by {
            assert(prefix[i] == lines[i]);
        }
        lemma_blank_script_yields_nothing(prefix);
        assert(is_blank_line(lines[lines.len() - 1]));
    }
}

/// Lines with no terminator at the end of a script never become a statement.
pub proof fn lemma_unterminated_tail_is_dropped(done: Seq<Seq<char>>, tail: Seq<Seq<char>>)
    requires
        forall|i: int| 0 <= i < tail.len() ==> !has_terminator(#[trigger] tail[i]),
    ensures
        statements_of(done + tail) == statements_of(done),
    decreases tail.len(),
{
    if tail.len() > 0 {
        let prefix = tail.drop_last();
        assert forall|i: int| 0 <= i < prefix.len() implies !has_terminator(#[trigger] prefix[i]) by {
            assert(prefix[i] == tail[i]);
        }
        lemma_unterminated_tail_is_dropped(done, prefix);
        assert((done + tail).drop_last() =~= done + prefix);
        assert((done + tail).last() == tail[tail.len() - 1]);
    }
}

/// After the first `k` lines of a statement, none of them terminated, the
/// buffer holds those lines joined, and a newline after them.
proof fn lemma_open_statement(done: Seq<Seq<char>>, group: Seq<Seq<char>>, k: int)
    requires
        pending_of(done).len() == 0,
        0 <= k <= group.len(),
        forall|i: int| 0 <= i < k ==> is_content_line(#[trigger] group[i]),
        forall|i: int| 0 <= i < k ==> !has_terminator(#[trigger] group[i]),
    ensures
        statements_of(done + group.take(k)) == statements_of(done),
        k == 0 ==> pending_of(done + group.take(k)).len() == 0,
        k > 0 ==> pending_of(done + group.take(k)) == join_lines(group.take(k)) + seq!['\n'],
    decreases k,
{
    if k == 0 {
        assert(done + group.take(0) =~= done);
    } else {
        lemma_open_statement(done, group, k - 1);
        assert((done + group.take(k)).drop_last() =~= done + group.take(k - 1));
        assert((done + group.take(k)).last() == group[k - 1]);
        assert(group.take(k).drop_last() =~= group.take(k - 1));
        assert(is_content_line(group[k - 1]));
        assert(!has_terminator(group[k - 1]));
        assert(pending_of(done + group.take(k)) =~= join_lines(group.take(k)) + seq!['\n']);
    }
}

/// A statement is exactly its content lines joined with newlines, the line
/// with the terminator included as it stands; after it nothing is pending.
pub proof fn lemma_statement_joins_its_lines(done: Seq<Seq<char>>, group: Seq<Seq<char>>)
    requires
        pending_of(done).len() == 0,
        group.len() > 0,
        forall|i: int| 0 <= i < group.len() ==> is_content_line(#[trigger] group[i]),
        forall|i: int| 0 <= i < group.len() - 1 ==> !has_terminator(#[trigger] group[i]),
        has_terminator(group.last()),
    ensures
        statements_of(done + group) == statements_of(done).push(join_lines(group)),
        pending_of(done + group).len() == 0,
{
    let n = group.len() as int;
    lemma_open_statement(done, group, n - 1);
    assert((done + group).drop_last() =~= done + group.take(n - 1));
    assert(group.drop_last() =~= group.take(n - 1));
    assert(is_content_line(group[n - 1]));
    if n == 1 {
        assert(pending_of(done + group.take(0)) =~= Seq::<char>::empty());
        assert(Seq::<char>::empty() + group.last() =~= join_lines(group));
    } else {
        assert(join_lines(group.take(n - 1)) + seq!['\n'] + group.last() =~= join_lines(group));
    }
}

} // verus!
