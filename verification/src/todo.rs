//! A todo list and the commands that drive it.

use crate::scan::parse_usize_spec;
use crate::scan::trimmed;
use vstd::prelude::*;

verus! {

/// One instruction typed at the prompt.
pub enum Command {
    /// Add a task.
    Todo(String),
    /// Mark the task at an index as done.
    Done(usize),
    /// Forget all finished tasks.
    Purge,
    /// Leave.
    Quit,
}

/// Whether the line asks to quit: no input at all, or `QUIT`.
pub open spec fn wants_quit(t: Seq<char>) -> bool {
    t.len() == 0 || trimmed(t) == "QUIT"@
}

/// Whether the line adds a task: a `TODO ` prefix.
pub open spec fn wants_todo(t: Seq<char>) -> bool {
    !wants_quit(t) && t.len() >= 5 && t.take(5) == "TODO "@
}

/// Whether the line finishes a task: a `DONE ` prefix.
pub open spec fn wants_done(t: Seq<char>) -> bool {
    !wants_quit(t) && !wants_todo(t) && t.len() >= 5 && t.take(5) == "DONE "@
}

/// Reads one input line as a [`Command`]; a line that means nothing
/// yields `None`, and the caller prompts again.
pub fn parse_command(line: &str) -> (r: Option<Command>)
    ensures
        wants_quit(line@) ==> r == Some(Command::Quit),
        wants_todo(line@) ==> (r matches Some(Command::Todo(task)) && task@ == trimmed(
            line@.skip(5),
        )),
        wants_done(line@) && parse_usize_spec(trimmed(line@.skip(5))).is_some() ==> r == Some(
            Command::Done(parse_usize_spec(trimmed(line@.skip(5))).unwrap() as usize),
        ),
        wants_done(line@) && parse_usize_spec(trimmed(line@.skip(5))).is_none() ==> r.is_none(),
        !wants_quit(line@) && !wants_todo(line@) && !wants_done(line@) ==> (trimmed(line@)
            == "PURGE"@ ==> r == Some(Command::Purge)) && (trimmed(line@) != "PURGE"@
            ==> r.is_none()),
{
    let n = line.unicode_len();
    let whole_trim = crate::scan::trimmed_str(line);
    if n == 0 || crate::text::str_eq(whole_trim, "QUIT") {
        return Some(Command::Quit);
    }
    if n >= 5 && crate::text::str_eq(line.substring_char(0, 5), "TODO ") {
        proof {
            assert(line@.take(5) == line@.subrange(0, 5));
            assert(line@.skip(5) == line@.subrange(5, n as int));
        }
        let task = crate::scan::trimmed_str(line.substring_char(5, n));
        return Some(Command::Todo(String::from_str(task)));
    }
    if n >= 5 && crate::text::str_eq(line.substring_char(0, 5), "DONE ") {
        proof {
            assert(line@.take(5) == line@.subrange(0, 5));
            assert(line@.skip(5) == line@.subrange(5, n as int));
        }
        let index = crate::scan::trimmed_str(line.substring_char(5, n));
        match crate::scan::parse_usize(index) {
            Some(i) => {
                return Some(Command::Done(i));
            },
            None => {
                return None;
            },
        }
    }
    if crate::text::str_eq(whole_trim, "PURGE") {
        return Some(Command::Purge);
    }
    None
}

/// Tasks still to do, and tasks already done.
pub struct TodoList {
    todos: Vec<String>,
    dones: Vec<String>,
}

impl TodoList {
    /// The pending tasks, in the order they were added.
    pub closed spec fn spec_todos(self) -> Seq<String> {
        self.todos@
    }

    /// The finished tasks, in the order they were finished.
    pub closed spec fn spec_dones(self) -> Seq<String> {
        self.dones@
    }

    /// An empty list.
    pub fn new() -> (r: Self)
        ensures
            r.spec_todos() == Seq::<String>::empty(),
            r.spec_dones() == Seq::<String>::empty(),
    {
        Self { todos: Vec::new(), dones: Vec::new() }
    }

    /// Adds a pending task at the end.
    pub fn add(&mut self, todo: String)
        ensures
            final(self).spec_todos() == old(self).spec_todos().push(todo),
            final(self).spec_dones() == old(self).spec_dones(),
    {
        self.todos.push(todo);
    }

    /// Finishes the pending task at `index`: it moves to the end of the
    /// finished tasks. An index past the end changes nothing.
    pub fn done(&mut self, index: usize)
        ensures
            index < old(self).spec_todos().len() ==> final(self).spec_todos() == old(
                self,
            ).spec_todos().remove(index as int) && final(self).spec_dones() == old(
                self,
            ).spec_dones().push(old(self).spec_todos()[index as int]),
            index >= old(self).spec_todos().len() ==> *final(self) == *old(self),
    {
        if index >= self.todos.len() {
            return;
        }
        let s = self.todos.remove(index);
        self.dones.push(s);
    }

    /// The pending tasks.
    pub fn todos(&self) -> (r: &Vec<String>)
        ensures
            r@ == self.spec_todos(),
    {
        &self.todos
    }

    /// The finished tasks.
    pub fn dones(&self) -> (r: &Vec<String>)
        ensures
            r@ == self.spec_dones(),
    {
        &self.dones
    }

    /// Forgets every finished task.
    pub fn purge(&mut self)
        ensures
            final(self).spec_todos() == old(self).spec_todos(),
            final(self).spec_dones() == Seq::<String>::empty(),
    {
        self.dones.clear();
    }
}

} // verus!
