use vstd::prelude::*;
use vstd::string::StringExecFns;

use crate::ast::error::{Error, RuntimeError};
use crate::ast::token::Token;

verus! {

/// One scope's bindings, innermost scope first: the view of an environment
/// chain.
pub type Frames<V> = Seq<Map<Seq<char>, V>>;

/// The value `name` has: the one in the innermost scope that binds it.
pub open spec fn lookup<V>(frames: Frames<V>, name: Seq<char>) -> Option<V>
    decreases frames.len(),
{
    if frames.len() == 0 {
        None
    } else if frames[0].contains_key(name) {
        Some(frames[0][name])
    } else {
        lookup(frames.drop_first(), name)
    }
}

/// The scopes after binding `name` in the innermost one.
pub open spec fn define_in<V>(frames: Frames<V>, name: Seq<char>, value: V) -> Frames<V>
    recommends
        frames.len() > 0,
{
    frames.update(0, frames[0].insert(name, value))
}

/// The scopes after giving `value` to the innermost binding of `name`, or
/// `None` when no scope binds it.
pub open spec fn assign_in<V>(frames: Frames<V>, name: Seq<char>, value: V) -> Option<Frames<V>>
    decreases frames.len(),
{
    if frames.len() == 0 {
        None
    } else if frames[0].contains_key(name) {
        Some(frames.update(0, frames[0].insert(name, value)))
    } else {
        match assign_in(frames.drop_first(), name, value) {
            Some(rest) => Some(seq![frames[0]] + rest),
            None => None,
        }
    }
}

/// Reading a variable just defined gives the value it was defined with.
pub proof fn law_get_after_define<V>(frames: Frames<V>, name: Seq<char>, value: V)
    requires
        frames.len() > 0,
    ensures
        lookup(define_in(frames, name, value), name) == Some(value),
{
}

/// Defining a variable leaves every other variable as it was.
pub proof fn law_define_keeps_others<V>(frames: Frames<V>, name: Seq<char>, value: V, other: Seq<char>)
    requires
        frames.len() > 0,
        other != name,
    ensures
        lookup(define_in(frames, name, value), other) == lookup(frames, other),
{
    assert(define_in(frames, name, value).drop_first() =~= frames.drop_first());
}

/// An assignment succeeds exactly when some scope binds the variable.
pub proof fn law_assign_defined<V>(frames: Frames<V>, name: Seq<char>, value: V)
    ensures
        assign_in(frames, name, value) is Some <==> lookup(frames, name) is Some,
    decreases frames.len(),
{
    if frames.len() > 0 && !frames[0].contains_key(name) {
        law_assign_defined(frames.drop_first(), name, value);
    }
}

/// After an assignment, reading the variable gives the value assigned, and
/// every other variable is as it was; the number of scopes is unchanged.
pub proof fn law_get_after_assign<V>(frames: Frames<V>, name: Seq<char>, value: V, other: Seq<char>)
    requires
        assign_in(frames, name, value) is Some,
        other != name,
    ensures
        lookup(assign_in(frames, name, value)->0, name) == Some(value),
        lookup(assign_in(frames, name, value)->0, other) == lookup(frames, other),
        assign_in(frames, name, value)->0.len() == frames.len(),
    decreases frames.len(),
{
    let after = assign_in(frames, name, value)->0;
    if frames[0].contains_key(name) {
        assert(after.drop_first() =~= frames.drop_first());
    } else {
        law_get_after_assign(frames.drop_first(), name, value, other);
        let rest = assign_in(frames.drop_first(), name, value)->0;
        assert(after.drop_first() =~= rest);
    }
}

/// A variable defined in an inner scope hides the outer ones of the same
/// name, and the outer scopes are left as they were.
pub proof fn law_inner_define_shadows<V>(outer: Frames<V>, name: Seq<char>, value: V)
    ensures
        lookup(define_in(seq![Map::<Seq<char>, V>::empty()] + outer, name, value), name) == Some(value),
        define_in(seq![Map::<Seq<char>, V>::empty()] + outer, name, value).drop_first() == outer,
{
    assert(define_in(seq![Map::<Seq<char>, V>::empty()] + outer, name, value).drop_first() =~= outer);
}

/// A scope of variables, with the scope that encloses it.
pub struct Environment<V> {
    pub enclosing: Option<Box<Environment<V>>>,
    names: Vec<String>,
    values: Vec<V>,
}

impl<V> Environment<V> {
    /// This scope's own bindings.
    pub closed spec fn frame(&self) -> Map<Seq<char>, V> {
        Map::new(
            |k: Seq<char>| exists|i: int| 0 <= i < self.names@.len() && #[trigger] self.names@[i]@ == k,
            |k: Seq<char>| self.values@[choose|i: int| 0 <= i < self.names@.len() && #[trigger] self.names@[i]@ == k],
        )
    }

    /// This scope and the ones around it, innermost first.
    pub closed spec fn frames(&self) -> Frames<V>
        decreases self,
    {
        match self.enclosing {
            Some(e) => seq![self.frame()] + e.frames(),
            None => seq![self.frame()],
        }
    }

    /// Every scope of the chain holds each name once, with its value.
    pub closed spec fn wf(&self) -> bool
        decreases self,
    {
        &&& self.names@.len() == self.values@.len()
        &&& forall|i: int, j: int|
            0 <= i < self.names@.len() && 0 <= j < self.names@.len() && i != j
                ==> #[trigger] self.names@[i]@ != #[trigger] self.names@[j]@
        &&& match self.enclosing {
            Some(e) => e.wf(),
            None => true,
        }
    }

    /// The innermost scope of the chain is this one.
    pub proof fn lemma_innermost(&self)
        ensures
            self.frames().len() >= 1,
            self.frames()[0] == self.frame(),
    {
        self.lemma_frames_len();
    }

    proof fn lemma_frames_len(&self)
        ensures
            self.frames().len() >= 1,
            self.frames()[0] == self.frame(),
            match self.enclosing {
                Some(e) => self.frames().drop_first() == e.frames(),
                None => self.frames().len() == 1,
            },
    {
        match self.enclosing {
            Some(e) => {
                assert((seq![self.frame()] + e.frames()).drop_first() =~= e.frames());
            },
            None => {},
        }
    }

    proof fn lemma_found(&self, i: int)
        requires
            self.wf(),
            0 <= i < self.names@.len(),
        ensures
            self.frame().contains_key(self.names@[i]@),
            self.frame()[self.names@[i]@] == self.values@[i],
    {
        let k = self.names@[i]@;
        assert(exists|j: int| 0 <= j < self.names@.len() && #[trigger] self.names@[j]@ == k) by {
            assert(self.names@[i]@ == k);
        }
        let j = choose|j: int| 0 <= j < self.names@.len() && #[trigger] self.names@[j]@ == k;
        assert(j == i);
    }

    /// An empty outermost scope.
    pub fn new() -> (e: Self)
        ensures
            e.wf(),
            e.frames() == seq![Map::<Seq<char>, V>::empty()],
    {
        let e = Self { enclosing: None, names: Vec::new(), values: Vec::new() };
        assert(e.frame() =~= Map::<Seq<char>, V>::empty());
        e
    }

    /// An empty scope inside `enclosing`.
    pub fn new_with_enclosing(enclosing: Environment<V>) -> (e: Self)
        requires
            enclosing.wf(),
        ensures
            e.wf(),
            e.frames() == seq![Map::<Seq<char>, V>::empty()] + enclosing.frames(),
    {
        let e = Self { enclosing: Some(Box::new(enclosing)), names: Vec::new(), values: Vec::new() };
        assert(e.frame() =~= Map::<Seq<char>, V>::empty());
        e
    }

    /// Position of `name` among this scope's names.
    fn find(&self, name: &String) -> (r: Option<usize>)
        requires
            self.wf(),
        ensures
            match r {
                Some(i) => i < self.names@.len() && self.names@[i as int]@ == name@,
                None => !self.frame().contains_key(name@),
            },
    {
        let mut i: usize = 0;
        while i < self.names.len()
            invariant
                self.wf(),
                i <= self.names@.len(),
                forall|j: int| 0 <= j < i ==> self.names@[j]@ != name@,
            decreases self.names@.len() - i,
        {
            if self.names[i] == *name {
                return Some(i);
            }
            i = i + 1;
        }
        None
    }

    /// Binds `name` to `value` in this scope, replacing a binding it had.
    fn bind(&mut self, name: String, value: V)
        requires
            old(self).wf(),
        ensures
            final(self).wf(),
            final(self).enclosing == old(self).enclosing,
            final(self).frame() == old(self).frame().insert(name@, value),
    {
        let ghost k = name@;
        match self.find(&name) {
            Some(i) => {
                let ghost prev = *self;
                self.values.set(i, value);
                proof {
                    assert(self.names@ == prev.names@);
                    assert forall|key: Seq<char>| #[trigger] self.frame().contains_key(key) <==> prev.frame().insert(k, value).contains_key(key) by {
                        if key == k {
                            self.lemma_found(i as int);
                        }
                    }
                    assert forall|key: Seq<char>| self.frame().contains_key(key) implies #[trigger] self.frame()[key] == prev.frame().insert(k, value)[key] by {
                        let j = choose|j: int| 0 <= j < self.names@.len() && #[trigger] self.names@[j]@ == key;
                        self.lemma_found(j);
                        if key != k {
                            prev.lemma_found(j);
                        }
                    }
                    assert(self.frame() =~= prev.frame().insert(k, value));
                }
            },
            None => {
                let ghost prev = *self;
                self.names.push(name);
                self.values.push(value);
                proof {
                    let n = prev.names@.len() as int;
                    assert(self.names@[n]@ == k);
                    assert forall|a: int| 0 <= a < n implies #[trigger] self.names@[a] == prev.names@[a] by {}
                    assert forall|key: Seq<char>| #[trigger] self.frame().contains_key(key) <==> prev.frame().insert(k, value).contains_key(key) by {
                        if key == k {
                            self.lemma_found(n);
                        } else if self.frame().contains_key(key) {
                            let j = choose|j: int| 0 <= j < self.names@.len() && #[trigger] self.names@[j]@ == key;
                            prev.lemma_found(j);
                        } else if prev.frame().contains_key(key) {
                            let j = choose|j: int| 0 <= j < prev.names@.len() && #[trigger] prev.names@[j]@ == key;
                            self.lemma_found(j);
                        }
                    }
                    assert forall|key: Seq<char>| self.frame().contains_key(key) implies #[trigger] self.frame()[key] == prev.frame().insert(k, value)[key] by {
                        let j = choose|j: int| 0 <= j < self.names@.len() && #[trigger] self.names@[j]@ == key;
                        self.lemma_found(j);
                        if key != k {
                            prev.lemma_found(j);
                        }
                    }
                    assert(self.frame() =~= prev.frame().insert(k, value));
                }
            },
        }
    }

    /// The value `name` has in this scope itself, if it binds it.
    pub fn value_here(&self, name: &String) -> (r: Option<&V>)
        requires
            self.wf(),
        ensures
            match r {
                Some(v) => self.frame().contains_key(name@) && *v == self.frame()[name@],
                None => !self.frame().contains_key(name@),
            },
    {
        match self.find(name) {
            Some(i) => {
                proof { self.lemma_found(i as int); }
                Some(&self.values[i])
            },
            None => None,
        }
    }

    /// Gives `value` to `name` in this scope itself, if it binds it; says
    /// whether it did.
    pub fn assign_here(&mut self, name: &String, value: V) -> (r: bool)
        requires
            old(self).wf(),
        ensures
            final(self).wf(),
            r == old(self).frame().contains_key(name@),
            final(self).frame() == if r { old(self).frame().insert(name@, value) } else { old(self).frame() },
    {
        match self.find(name) {
            Some(i) => {
                proof { self.lemma_found(i as int); }
                self.bind(name.clone(), value);
                true
            },
            None => false,
        }
    }

    /// Binds `name` to `value` in this scope.
    pub fn define(&mut self, name: String, value: V)
        requires
            old(self).wf(),
        ensures
            final(self).wf(),
            final(self).frames() == define_in(old(self).frames(), name@, value),
    {
        let ghost k = name@;
        proof { old(self).lemma_frames_len(); }
        self.bind(name, value);
        proof {
            self.lemma_frames_len();
            assert(self.frames() =~= define_in(old(self).frames(), k, value));
        }
    }
}

impl<V: Clone> Environment<V> {
    /// The value of the variable `name`, from the innermost scope that
    /// binds it.
    pub fn get(&self, name: &Token) -> (r: Result<V, Error>)
        requires
            self.wf(),
        ensures
            match lookup(self.frames(), name.lexeme@) {
                Some(v) => r matches Ok(x) && cloned(v, x),
                None => r matches Err(Error::Runtime(e))
                    && e.token == *name
                    && e.message@ == undefined_get_message(name.lexeme@),
            },
        decreases self,
    {
        proof { self.lemma_frames_len(); }
        if let Some(i) = self.find(&name.lexeme) {
            proof { self.lemma_found(i as int); }
            return Ok(self.values[i].clone());
        }
        if let Some(enclosing) = &self.enclosing {
            return enclosing.get(name);
        }
        assert(lookup(self.frames().drop_first(), name.lexeme@) is None);
        Err(Error::Runtime(RuntimeError::new(name.duplicate(), undefined_message(name.lexeme.as_str(), "'"))))
    }

    /// Gives `value` to the variable `name` in the innermost scope that
    /// binds it; an error, and no change, when none does.
    pub fn assign(&mut self, name: &Token, value: V) -> (r: Result<(), Error>)
        requires
            old(self).wf(),
        ensures
            final(self).wf(),
            match assign_in(old(self).frames(), name.lexeme@, value) {
                Some(frames) => r is Ok && final(self).frames() == frames,
                None => final(self).frames() == old(self).frames()
                    && (r matches Err(Error::Runtime(e))
                    && e.token == *name
                    && e.message@ == undefined_assign_message(name.lexeme@)),
            },
        decreases old(self).frames().len(),
    {
        proof { old(self).lemma_frames_len(); }
        if let Some(i) = self.find(&name.lexeme) {
            proof { self.lemma_found(i as int); }
            self.bind(name.lexeme.clone(), value);
            proof {
                self.lemma_frames_len();
                assert(self.frames() =~= old(self).frames().update(0, old(self).frame().insert(name.lexeme@, value)));
            }
            return Ok(());
        }
        match self.enclosing.take() {
            Some(enclosing) => {
                let mut enclosing = enclosing;
                let r = enclosing.assign(name, value);
                self.enclosing = Some(enclosing);
                proof {
                    self.lemma_frames_len();
                    match assign_in(old(self).frames().drop_first(), name.lexeme@, value) {
                        Some(rest) => {
                            assert(self.frames() =~= seq![old(self).frame()] + rest);
                        },
                        None => {
                            assert(self.frames() =~= old(self).frames());
                        },
                    }
                }
                r?;
                Ok(())
            },
            None => Err(Error::Runtime(RuntimeError::new(name.duplicate(), undefined_message(name.lexeme.as_str(), "'.")))),
        }
    }
}

impl<V> Default for Environment<V> {
    fn default() -> (e: Self)
        ensures
            e.wf(),
            e.frames() == seq![Map::<Seq<char>, V>::empty()],
    {
        Self::new()
    }
}

/// The message for reading a variable no scope binds.
pub open spec fn undefined_get_message(name: Seq<char>) -> Seq<char> {
    "Undefined variable '"@ + name + "'"@
}

/// The message for assigning a variable no scope binds.
pub open spec fn undefined_assign_message(name: Seq<char>) -> Seq<char> {
    "Undefined variable '"@ + name + "'."@
}

/// The message for an undefined variable: the fixed opening, the name,
/// then `end`.
fn undefined_message(name: &str, end: &str) -> (s: String)
    ensures
        s@ == "Undefined variable '"@ + name@ + end@,
{
    let mut s = String::from_str("Undefined variable '");
    s.append(name);
    s.append(end);
    s
}

} // verus!
