//! The worklist of source files that make up one skillset.

use crate::model::deep::{lemma_deep_append, lemma_deep_empty, lemma_deep_index, lemma_deep_push};
use crate::model::skillset::{Skillset, SkillsetView};
use vstd::prelude::*;
use vstd::string::StringExecFns;

verus! {

/// Mathematical model of a [`Parser`].
pub struct ParserView {
    pub current: Option<Seq<char>>,
    pub todo: Seq<Seq<char>>,
    pub done: Seq<Seq<char>>,
    pub model: SkillsetView,
}

/// The state of loading a skillset from several files: the file that is
/// being read, the files that wait, the files that were read, and the
/// skillset that gathers what all of them declare.
pub struct Parser {
    current: Option<String>,
    todo: Vec<String>,
    done: Vec<String>,
    pub model: Skillset,
}

impl View for Parser {
    type V = ParserView;

    closed spec fn view(&self) -> ParserView {
        ParserView {
            current: self.current.deep_view(),
            todo: self.todo.deep_view(),
            done: self.done.deep_view(),
            model: self.model@,
        }
    }
}

impl DeepView for Parser {
    type V = ParserView;

    open spec fn deep_view(&self) -> ParserView {
        self@
    }
}

impl ParserView {
    /// The file that is being read, as a sequence of at most one path.
    pub open spec fn reading(self) -> Seq<Seq<char>> {
        match self.current {
            Some(file) => seq![file],
            None => Seq::empty(),
        }
    }

    /// Every path that the worklist knows: the current one, those that
    /// wait, and those that were read.
    pub open spec fn files(self) -> Seq<Seq<char>> {
        self.reading() + self.todo + self.done
    }

    /// No path waits twice, and no path waits that is being read or was
    /// read.
    pub open spec fn wf(self) -> bool {
        &&& self.todo.no_duplicates()
        &&& forall|i: int|
            0 <= i < self.todo.len() ==> !self.done.contains(#[trigger] self.todo[i])
                && self.current != Some(self.todo[i])
    }

    /// The worklist after the next file was asked for: the current file, if
    /// there is one, has joined the files that were read, and the file that
    /// was added last, if there is one, has become the current file.
    pub open spec fn next(self) -> ParserView {
        let done = self.done + self.reading();
        if self.todo.len() == 0 {
            ParserView { done, ..self }
        } else {
            ParserView {
                current: Some(self.todo.last()),
                todo: self.todo.drop_last(),
                done,
                ..self
            }
        }
    }
}

impl Default for Parser {
    fn default() -> (r: Self)
        ensures
            r@.current is None,
            r@.todo == Seq::<Seq<char>>::empty(),
            r@.done == Seq::<Seq<char>>::empty(),
            r@.model == SkillsetView::empty(),
            r@.wf(),
    {
        let todo: Vec<String> = Vec::new();
        let done: Vec<String> = Vec::new();
        proof {
            lemma_deep_empty(todo);
            lemma_deep_empty(done);
        }
        Parser { current: None, todo, done, model: Skillset::default() }
    }
}

impl Parser {
    /// A worklist on which `file` waits, with an empty skillset.
    pub fn new(file: &str) -> (r: Self)
        ensures
            r@.current is None,
            r@.todo == seq![file@],
            r@.done == Seq::<Seq<char>>::empty(),
            r@.model == SkillsetView::empty(),
            r@.wf(),
    {
        let mut todo: Vec<String> = Vec::new();
        let done: Vec<String> = Vec::new();
        let ghost before = todo;
        let first = String::from_str(file);
        todo.push(first);
        proof {
            lemma_deep_empty(before);
            lemma_deep_empty(done);
            lemma_deep_push(before, todo, first);
            assert(todo.deep_view() =~= seq![file@]);
        }
        Parser { current: None, todo, done, model: Skillset::default() }
    }

    /// The file that is being read.
    pub fn current(&self) -> (r: &Option<String>)
        ensures
            r.deep_view() == self@.current,
    {
        &self.current
    }

    /// The path of the file that is being read.
    pub fn file(&self) -> (r: &str)
        requires
            self@.current is Some,
        ensures
            Some(r@) == self@.current,
    {
        match &self.current {
            Some(file) => file.as_str(),
            None => unreached(),
        }
    }

    /// The files that wait. The one that was added last is read next.
    pub fn todo(&self) -> (r: &Vec<String>)
        ensures
            r.deep_view() == self@.todo,
    {
        &self.todo
    }

    /// The files that were read.
    pub fn done(&self) -> (r: &Vec<String>)
        ensures
            r.deep_view() == self@.done,
    {
        &self.done
    }

    /// Every path that the worklist knows: the current one, those that
    /// wait, and those that were read.
    pub fn files(&self) -> (r: Vec<String>)
        ensures
            r.deep_view() == self@.files(),
    {
        let mut files: Vec<String> = Vec::new();
        proof {
            lemma_deep_empty(files);
        }
        match &self.current {
            Some(file) => {
                let ghost before = files;
                let copy = file.clone();
                files.push(copy);
                proof {
                    lemma_deep_push(before, files, copy);
                    assert(files.deep_view() =~= self@.reading());
                }
            },
            None => {},
        }
        let ghost first = files;
        let mut todo = self.todo.clone();
        let ghost second = todo;
        files.append(&mut todo);
        let ghost both = files;
        let mut done = self.done.clone();
        let ghost third = done;
        files.append(&mut done);
        proof {
            assert(second.deep_view() =~= self.todo.deep_view());
            assert(third.deep_view() =~= self.done.deep_view());
            lemma_deep_append(first, second, both);
            lemma_deep_append(both, third, files);
        }
        files
    }

    /// Makes `file` wait, unless the worklist knows its path already.
    /// Returns whether the file was added.
    pub fn add(&mut self, file: &str) -> (r: bool)
        ensures
            r == !old(self)@.files().contains(file@),
            r ==> final(self)@ == (ParserView { todo: old(self)@.todo.push(file@), ..old(self)@ }),
            !r ==> final(self)@ == old(self)@,
            old(self)@.wf() ==> final(self)@.wf(),
    {
        let wanted = String::from_str(file);
        let files = self.files();
        let mut i: usize = 0;
        while i < files.len()
            invariant
                0 <= i <= files.len(),
                wanted@ == file@,
                files.deep_view() == old(self)@.files(),
                forall|k: int| 0 <= k < i ==> #[trigger] files.deep_view()[k] != file@,
            decreases files.len() - i,
        {
            proof {
                lemma_deep_index(files, i as int);
            }
            if files[i] == wanted {
                proof {
                    assert(files.deep_view()[i as int] == file@);
                }
                return false;
            }
            i = i + 1;
        }
        let ghost before = self.todo;
        self.todo.push(wanted);
        proof {
            lemma_deep_push(before, self.todo, wanted);
            let known = old(self)@.files();
            assert forall|k: int| 0 <= k < known.len() implies known[k] != file@ by {
                assert(files.deep_view()[k] == known[k]);
            }
            if old(self)@.wf() {
                let todo = old(self)@.todo;
                let reading = old(self)@.reading();
                assert forall|k: int| 0 <= k < todo.len() implies #[trigger] todo[k] != file@ by {
                    assert(known[reading.len() + k] == todo[k]);
                }
                assert(!old(self)@.done.contains(file@)) by {
                    if old(self)@.done.contains(file@) {
                        let k = choose|k: int|
                            0 <= k < old(self)@.done.len() && old(self)@.done[k] == file@;
                        assert(known[reading.len() + todo.len() + k] == file@);
                    }
                }
                assert(old(self)@.current != Some(file@)) by {
                    if old(self)@.current == Some(file@) {
                        assert(known[0] == file@);
                    }
                }
            }
        }
        true
    }

    /// Moves on to the file that was added last: the current file, if there
    /// is one, joins the files that were read, and the file that waited
    /// becomes the current one and is returned. When no file waits, `None` is
    /// returned and the current file stays.
    pub fn next(&mut self) -> (r: Option<String>)
        ensures
            final(self)@ == old(self)@.next(),
            r.deep_view() == (if old(self)@.todo.len() == 0 {
                None
            } else {
                Some(old(self)@.todo.last())
            }),
            old(self)@.wf() ==> final(self)@.wf(),
            old(self)@.wf() && r is Some ==> !final(self)@.todo.contains(r->Some_0@)
                && !old(self)@.done.contains(r->Some_0@) && old(self)@.current != Some(r->Some_0@),
    {
        let ghost done_before = self.done;
        match &self.current {
            Some(file) => {
                let copy = file.clone();
                self.done.push(copy);
                proof {
                    lemma_deep_push(done_before, self.done, copy);
                    assert(self.done.deep_view() =~= old(self)@.done + old(self)@.reading());
                }
            },
            None => {
                proof {
                    assert(self.done.deep_view() =~= old(self)@.done + old(self)@.reading());
                }
            },
        }
        let ghost todo_before = self.todo;
        match self.todo.pop() {
            None => None,
            Some(file) => {
                let copy = file.clone();
                self.current = Some(file);
                proof {
                    let n = todo_before@.len() as int;
                    lemma_deep_index(todo_before, n - 1);
                    assert(self.todo.deep_view() =~= old(self)@.todo.drop_last());
                    if old(self)@.wf() {
                        let todo = old(self)@.todo;
                        assert forall|i: int| 0 <= i < n - 1 implies !self@.done.contains(
                            #[trigger] self@.todo[i],
                        ) && self@.current != Some(self@.todo[i]) by {
                            assert(self@.todo[i] == todo[i]);
                            assert(todo[i] != todo[n - 1]);
                            if self@.done.contains(todo[i]) {
                                let k = choose|k: int|
                                    0 <= k < self@.done.len() && self@.done[k] == todo[i];
                                if k < old(self)@.done.len() {
                                    assert(old(self)@.done[k] == todo[i]);
                                }
                            }
                        }
                        if self@.todo.contains(copy@) {
                            let k = choose|k: int| 0 <= k < n - 1 && self@.todo[k] == copy@;
                            assert(todo[k] == todo[n - 1]);
                        }
                    }
                }
                Some(copy)
            },
        }
    }
}

} // verus!
