//! What the two interpreters share: the shape of a result, and the cache of
//! runtime calls through which both see the same input.

use crate::natural::names_view;
use crate::text::parse_i64;
use crate::text::parse_i64_spec;
use vstd::prelude::*;

verus! {

/// What an interpreter run came to: its value, whether any error occurred,
/// and the errors in the order in which they occurred.
#[derive(Debug, PartialEq)]
pub struct InterpretResult {
    pub value: Option<i64>,
    pub had_error: bool,
    pub errors: Vec<String>,
}

/// The cache as a plain value: its mode, the cached results (each with the
/// name of the call it belongs to, oldest first), and the lines of input that
/// no call has used yet.
pub struct CacheView {
    pub write: bool,
    pub log: Seq<(Seq<char>, i64)>,
    pub input: Seq<Seq<char>>,
}

/// The cache of runtime calls. In write mode a call takes the next line of
/// input and its value is cached under the call's name; in read mode a call
/// takes the oldest value cached under its name.
pub struct CachedRuntimeCall {
    write: bool,
    log: Vec<(String, i64)>,
    input: Vec<String>,
}

impl View for CachedRuntimeCall {
    type V = CacheView;

    closed spec fn view(&self) -> CacheView {
        CacheView {
            write: self.write,
            log: Seq::new(self.log@.len(), |i: int| (self.log@[i].0@, self.log@[i].1)),
            input: names_view(self.input@),
        }
    }
}

/// Where the oldest result cached under `name` stands, looking from `from` on.
pub open spec fn find_cached(log: Seq<(Seq<char>, i64)>, name: Seq<char>, from: int) -> Option<
    int,
>
    decreases log.len() - from,
{
    if from < 0 || from >= log.len() {
        None
    } else if log[from].0 == name {
        Some(from)
    } else {
        find_cached(log, name, from + 1)
    }
}

/// The name under which the results of `read` are cached.
pub open spec fn read_name() -> Seq<char> {
    "read"@
}

pub open spec fn no_input_message() -> Seq<char> {
    "read: no input is left"@
}

pub open spec fn bad_input_message(line: Seq<char>) -> Seq<char> {
    "read: not an integer: '"@ + line + "'"@
}

pub open spec fn empty_cache_message() -> Seq<char> {
    "read: no cached result is left"@
}

/// One `read`. In write mode it uses up the next line of input; where the
/// line is an integer, that integer is cached under `read` and returned. In
/// read mode it takes the oldest value cached under `read`.
pub open spec fn read_step(c: CacheView) -> (Result<i64, Seq<char>>, CacheView) {
    if c.write {
        if c.input.len() == 0 {
            (Err(no_input_message()), c)
        } else {
            match parse_i64_spec(c.input[0]) {
                Some(n) => (
                    Ok(n),
                    CacheView {
                        write: c.write,
                        log: c.log.push((read_name(), n)),
                        input: c.input.drop_first(),
                    },
                ),
                None => (
                    Err(bad_input_message(c.input[0])),
                    CacheView { write: c.write, log: c.log, input: c.input.drop_first() },
                ),
            }
        }
    } else {
        match find_cached(c.log, read_name(), 0) {
            Some(i) => (
                Ok(c.log[i].1),
                CacheView { write: c.write, log: c.log.remove(i), input: c.input },
            ),
            None => (Err(empty_cache_message()), c),
        }
    }
}

impl CachedRuntimeCall {
    /// An empty cache in write mode, with the lines of input that the calls
    /// will use.
    pub fn new(input: Vec<String>) -> (r: Self)
        ensures
            r@ == (CacheView {
                write: true,
                log: Seq::empty(),
                input: names_view(input@),
            }),
    {
        let r = CachedRuntimeCall { write: true, log: Vec::new(), input };
        assert(r@.log =~= Seq::empty());
        r
    }

    /// Whether the cache is in write mode.
    pub fn write_mode(&self) -> (r: bool)
        ensures
            r == self@.write,
    {
        self.write
    }

    /// Puts the cache in write mode, or in read mode.
    pub fn set_write_mode(&mut self, write: bool)
        ensures
            final(self)@ == (CacheView { write, ..old(self)@ }),
    {
        self.write = write;
    }

    /// Caches `value` under `name`, behind what is cached there.
    pub fn set_cached_result_of(&mut self, name: String, value: i64)
        ensures
            final(self)@ == (CacheView {
                write: old(self)@.write,
                log: old(self)@.log.push((name@, value)),
                input: old(self)@.input,
            }),
    {
        self.log.push((name, value));
        assert(final(self)@.log =~= old(self)@.log.push((name@, value)));
    }

    /// Takes the oldest value cached under `name`, if there is one.
    pub fn get_cached_result_of(&mut self, name: &String) -> (r: Option<i64>)
        ensures
            match find_cached(old(self)@.log, name@, 0) {
                Some(i) => r == Some(old(self)@.log[i].1) && final(self)@ == (CacheView {
                    write: old(self)@.write,
                    log: old(self)@.log.remove(i),
                    input: old(self)@.input,
                }),
                None => r is None && final(self)@ == old(self)@,
            },
    {
        let mut i: usize = 0;
        while i < self.log.len()
            invariant
                i <= self.log@.len(),
                *self == *old(self),
                find_cached(self@.log, name@, 0) == find_cached(self@.log, name@, i as int),
            decreases self.log.len() - i,
        {
            if self.log[i].0 == *name {
                let entry = self.log.remove(i);
                assert(final(self)@.log =~= old(self)@.log.remove(i as int));
                return Some(entry.1);
            }
            i += 1;
        }
        None
    }

    /// The next line of input, which is then used up.
    fn next_line(&mut self) -> (r: Option<String>)
        ensures
            old(self)@.input.len() == 0 ==> r is None && final(self)@ == old(self)@,
            old(self)@.input.len() > 0 ==> (r matches Some(line) && line@ == old(self)@.input[0]
                && final(self)@ == (CacheView {
                write: old(self)@.write,
                log: old(self)@.log,
                input: old(self)@.input.drop_first(),
            })),
    {
        if self.input.len() == 0 {
            None
        } else {
            let line = self.input.remove(0);
            assert(final(self)@.input =~= old(self)@.input.drop_first());
            Some(line)
        }
    }

    /// One `read` call.
    pub fn read_int(&mut self) -> (r: Result<i64, String>)
        ensures
            final(self)@ == read_step(old(self)@).1,
            match read_step(old(self)@).0 {
                Ok(n) => r == Ok::<i64, String>(n),
                Err(msg) => r matches Err(m) && m@ == msg,
            },
    {
        if self.write {
            match self.next_line() {
                None => Err(String::from_str("read: no input is left")),
                Some(line) => match parse_i64(line.as_str()) {
                    Some(n) => {
                        self.set_cached_result_of(String::from_str("read"), n);
                        Ok(n)
                    },
                    None => {
                        let mut msg = String::from_str("read: not an integer: '");
                        msg.append(line.as_str());
                        msg.append("'");
                        Err(msg)
                    },
                },
            }
        } else {
            let name = String::from_str("read");
            match self.get_cached_result_of(&name) {
                Some(n) => Ok(n),
                None => Err(String::from_str("read: no cached result is left")),
            }
        }
    }
}

/// What can be interpreted: the state of an interpreter determines the
/// value of a run from it, the errors that the run reports, and the state
/// that the run leaves.
pub trait Interpretable {
    /// The value that a run from this state has.
    spec fn outcome(&self) -> Option<i64>;

    /// The errors that a run from this state reports: those that the
    /// interpreter held before, then those of the run, in order.
    spec fn run_errors(&self) -> Seq<Seq<char>>;

    /// Whether this is the state that a run from `before` leaves.
    spec fn left_by(&self, before: &Self) -> bool;

    /// Runs the program and reports the outcome.
    fn interpret(&mut self) -> (r: InterpretResult)
        ensures
            r.value == old(self).outcome(),
            names_view(r.errors@) == old(self).run_errors(),
            r.had_error == (r.errors@.len() > 0),
            final(self).left_by(&*old(self)),
    ;
}

/// Runs whatever can be interpreted.
pub struct Interpreter<'a, T: Interpretable> {
    program: &'a mut T,
}

impl<'a, T: Interpretable> Interpreter<'a, T> {
    /// The interpreter that is run, as it stands.
    pub closed spec fn subject(&self) -> &T {
        &*self.program
    }

    /// Runs the program and reports the outcome: the value and the errors
    /// that the interpreter's state determines; the interpreter is left as
    /// its own run leaves it.
    pub fn run(&mut self) -> (r: InterpretResult)
        ensures
            r.value == old(self).subject().outcome(),
            names_view(r.errors@) == old(self).subject().run_errors(),
            r.had_error == (r.errors@.len() > 0),
            final(self).subject().left_by(old(self).subject()),
    {
        self.program.interpret()
    }

    pub fn new(prog: &'a mut T) -> (r: Self)
        ensures
            *r.subject() == *old(prog),
    {
        Self { program: prog }
    }
}

} // verus!
