use vstd::prelude::*;

use crate::strutil::str_eq;
use crate::values::{Value, ValueModel};

verus! {

/// Looks a name up in one binding frame, most recently set pair first.
pub open spec fn frame_lookup(frame: Seq<(Seq<char>, ValueModel)>, key: Seq<char>) -> Option<
    ValueModel,
>
    decreases frame.len(),
{
    if frame.len() == 0 {
        None
    } else if frame.last().0 == key {
        Some(frame.last().1)
    } else {
        frame_lookup(frame.drop_last(), key)
    }
}

/// Looks a name up in a stack of frames, innermost frame first.
pub open spec fn stack_lookup(
    stack: Seq<Seq<(Seq<char>, ValueModel)>>,
    key: Seq<char>,
) -> Option<ValueModel>
    decreases stack.len(),
{
    if stack.len() == 0 {
        None
    } else {
        match frame_lookup(stack.last(), key) {
            Some(v) => Some(v),
            None => stack_lookup(stack.drop_last(), key),
        }
    }
}

/// The first of two lookup results that holds a value.
pub open spec fn or_else(a: Option<ValueModel>, b: Option<ValueModel>) -> Option<ValueModel> {
    match a {
        Some(v) => Some(v),
        None => b,
    }
}

/// Every value bound anywhere in the stack is well formed.
pub open spec fn stack_wf(stack: Seq<Seq<(Seq<char>, ValueModel)>>) -> bool {
    forall|i: int, j: int|
        0 <= i < stack.len() && 0 <= j < stack[i].len() ==> (#[trigger] stack[i][j]).1.wf()
}

/// A store of name/value bindings with lexical scoping: entering a scope
/// pushes a frame, setting a name appends to the innermost frame, and
/// lookup scans innermost frame first, newest binding first.
pub trait Environment: Sized {
    /// The frames, oldest first; each frame's pairs, oldest first.
    spec fn model(&self) -> Seq<Seq<(Seq<char>, ValueModel)>>;

    /// The global frame is always present, and bound values stay well
    /// formed.
    spec fn inv(&self) -> bool;

    /// What every invariant-holding store guarantees its callers: the
    /// global frame exists, so one `enter` suffices before `exit`.
    proof fn global_frame_present(&self)
        requires
            self.inv(),
        ensures
            self.model().len() >= 1,
    ;

    /// The value of the most recent binding of `key` in the innermost
    /// frame that binds it, if any.
    fn get(&self, key: &str) -> (r: Option<Value>)
        requires
            self.inv(),
        ensures
            match stack_lookup(self.model(), key@) {
                Some(m) => r matches Some(v) && v@ == m && v@.wf(),
                None => r is None,
            };

    /// Appends a fresh binding to the innermost frame; it shadows any
    /// earlier binding of the same name and never overwrites one.
    fn set(&mut self, key: &str, value: Value)
        requires
            old(self).inv(),
            value@.wf(),
        ensures
            final(self).inv(),
            final(self).model() == old(self).model().update(
                old(self).model().len() - 1,
                old(self).model().last().push((key@, value@)),
            );

    /// Pushes a new empty innermost frame.
    fn enter(&mut self)
        requires
            old(self).inv(),
        ensures
            final(self).inv(),
            final(self).model() == old(self).model().push(Seq::empty());

    /// Pops the innermost frame; the global frame is never popped.
    fn exit(&mut self)
        requires
            old(self).inv(),
            old(self).model().len() >= 2,
        ensures
            final(self).inv(),
            final(self).model() == old(self).model().drop_last();
}

/// The one store the evaluator uses: a vector of vectors of pairs.
pub struct EnvironmentStack {
    frames: Vec<Vec<(String, Value)>>,
}

impl EnvironmentStack {
    /// The mathematical content of the stack.
    pub closed spec fn model_spec(&self) -> Seq<Seq<(Seq<char>, ValueModel)>> {
        Seq::new(
            self.frames@.len(),
            |i: int|
                Seq::new(
                    self.frames@[i]@.len(),
                    |j: int| (self.frames@[i]@[j].0@, self.frames@[i]@[j].1@),
                ),
        )
    }

    /// A fresh environment holding exactly the empty global frame.
    pub fn new() -> (e: EnvironmentStack)
        ensures
            e.inv(),
            e.model() =~~= seq![Seq::<(Seq<char>, ValueModel)>::empty()],
    {
        let mut frames: Vec<Vec<(String, Value)>> = Vec::new();
        frames.push(Vec::new());
        EnvironmentStack { frames }
    }
}

impl Environment for EnvironmentStack {
    open spec fn model(&self) -> Seq<Seq<(Seq<char>, ValueModel)>> {
        self.model_spec()
    }

    closed spec fn inv(&self) -> bool {
        self.frames@.len() >= 1 && stack_wf(self.model_spec())
    }

    proof fn global_frame_present(&self) {
    }

    fn get(&self, key: &str) -> (r: Option<Value>)
    {
        let ghost full = self.model_spec();
        let mut fi = self.frames.len();
        proof {
            assert(full.subrange(0, fi as int) =~= full);
        }
        while fi > 0
            invariant
                self.inv(),
                full == self.model_spec(),
                fi <= self.frames@.len(),
                stack_lookup(full, key@) == stack_lookup(full.subrange(0, fi as int), key@),
            decreases fi,
        {
            fi = fi - 1;
            let frame = &self.frames[fi];
            let ghost fmodel = full[fi as int];
            proof {
                assert(full.subrange(0, fi + 1).last() == fmodel);
                assert(full.subrange(0, fi + 1).drop_last() =~= full.subrange(0, fi as int));
                assert(fmodel.subrange(0, fmodel.len() as int) =~= fmodel);
            }
            let mut pj = frame.len();
            while pj > 0
                invariant
                    self.inv(),
                    full == self.model_spec(),
                    fi < self.frames@.len(),
                    frame == &self.frames@[fi as int],
                    fmodel == full[fi as int],
                    pj <= frame@.len(),
                    fmodel.len() == frame@.len(),
                    stack_lookup(full, key@) == or_else(
                        frame_lookup(fmodel.subrange(0, pj as int), key@),
                        stack_lookup(full.subrange(0, fi as int), key@),
                    ),
                decreases pj,
            {
                pj = pj - 1;
                proof {
                    assert(fmodel.subrange(0, pj + 1).last() == fmodel[pj as int]);
                    assert(fmodel.subrange(0, pj + 1).drop_last() =~= fmodel.subrange(
                        0,
                        pj as int,
                    ));
                }
                let pair = &frame[pj];
                if str_eq(pair.0.as_str(), key) {
                    return Some(pair.1.duplicate());
                }
            }
        }
        proof {
            assert(full.subrange(0, 0) =~= Seq::<Seq<(Seq<char>, ValueModel)>>::empty());
        }
        None
    }

    fn set(&mut self, key: &str, value: Value)
    {
        let ghost before = self.model_spec();
        let name = <String as vstd::string::StringExecFns>::from_str(key);
        let mut frame: Vec<(String, Value)> = match self.frames.pop() {
            Some(f) => f,
            None => Vec::new(),
        };
        frame.push((name, value));
        self.frames.push(frame);
        proof {
            assert(self.model_spec() =~~= before.update(
                before.len() - 1,
                before.last().push((key@, value@)),
            ));
        }
    }

    fn enter(&mut self)
    {
        let ghost before = self.model_spec();
        self.frames.push(Vec::new());
        proof {
            assert(self.model_spec() =~~= before.push(Seq::empty()));
        }
    }

    fn exit(&mut self)
    {
        let ghost before = self.model_spec();
        self.frames.pop();
        proof {
            assert(self.model_spec() =~~= before.drop_last());
        }
    }
}

} // verus!
