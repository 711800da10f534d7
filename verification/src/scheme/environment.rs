//! Environments as handles. An environment names one frame of an
//! interpreter's frame table; the frames it extends are reached through the
//! table, so every handle of a frame sees what another handle defines there.
use vstd::prelude::*;

use super::env::{binding_frame, define, lookup, new_frame, new_root, Interpreter};
use super::error::{ErrorView, EvalError};
use super::text::{chars_to_string, push_all, str_chars};
use super::value::{value_ok, Value};

verus! {

/// An environment: frame `frame` of an interpreter, seen with the frames it
/// extends. Bindings hold the values themselves.
#[derive(Clone, Copy, Debug, PartialEq, Eq)]
pub struct Env {
    pub frame: usize,
}

/// An environment: frame `frame` of an interpreter, seen with the frames it
/// extends, where `set` reports whether a binding was found.
#[derive(Clone, Copy, Debug, PartialEq, Eq)]
pub struct Environment {
    pub frame: usize,
}

/// `unbound variable: name`
pub open spec fn unbound(name: Seq<char>) -> ErrorView {
    ErrorView::Message("unbound variable: "@ + name)
}

fn unbound_error(name: &[char]) -> (e: EvalError)
    ensures
        e@ == unbound(name@),
{
    let mut msg = str_chars("unbound variable: ");
    push_all(&mut msg, name);
    EvalError::Message(chars_to_string(&msg))
}

impl Env {
    /// A new empty environment that extends none.
    pub fn new(interp: &mut Interpreter) -> (e: Env)
        requires
            old(interp).ok(),
        ensures
            final(interp).ok(),
            (final(interp)@, e.frame) == new_root(old(interp)@),
    {
        Env { frame: interp.new_root_frame() }
    }

    /// A new empty environment that extends `parent`.
    pub fn with_parent(interp: &mut Interpreter, parent: &Env) -> (e: Env)
        requires
            old(interp).ok(),
            parent.frame < old(interp)@.frames.len(),
        ensures
            final(interp).ok(),
            (final(interp)@, e.frame) == new_frame(old(interp)@, parent.frame),
    {
        Env { frame: interp.new_frame(parent.frame) }
    }

    /// The value bound to `name` here or in an environment this one extends.
    pub fn get(&self, interp: &Interpreter, name: &str) -> (r: Result<Value, EvalError>)
        requires
            interp.ok(),
        ensures
            match lookup(interp@.frames, self.frame as int, name@) {
                Some(v) => r matches Ok(x) && x@ == v,
                None => r matches Err(e) && e@ == unbound(name@),
            },
    {
        let chars = str_chars(name);
        match interp.lookup(self.frame, &chars) {
            Some(v) => Ok(v),
            None => Err(unbound_error(&chars)),
        }
    }

    /// Binds `name` to `val` in this environment's own frame, replacing a
    /// binding of `name` there.
    pub fn set(&self, interp: &mut Interpreter, name: &str, val: Value)
        requires
            old(interp).ok(),
            self.frame < old(interp)@.frames.len(),
            value_ok(val@, old(interp)@.frames.len(), old(interp)@.strings.len()),
        ensures
            final(interp).ok(),
            final(interp)@ == define(old(interp)@, self.frame as int, name@, val@),
    {
        interp.define(self.frame, str_chars(name), val);
    }

    /// Rebinds the nearest binding of `name`, seen from `env`; an error, with
    /// nothing changed, when there is none.
    pub fn set_existing(env: &Env, interp: &mut Interpreter, name: &str, val: Value) -> (r: Result<(), EvalError>)
        requires
            old(interp).ok(),
            value_ok(val@, old(interp)@.frames.len(), old(interp)@.strings.len()),
        ensures
            final(interp).ok(),
            match r {
                Ok(()) => {
                    &&& binding_frame(old(interp)@.frames, env.frame as int, name@) != -1
                    &&& final(interp)@ == define(
                        old(interp)@,
                        binding_frame(old(interp)@.frames, env.frame as int, name@),
                        name@,
                        val@,
                    )
                },
                Err(e) => {
                    &&& binding_frame(old(interp)@.frames, env.frame as int, name@) == -1
                    &&& e@ == unbound(name@)
                    &&& final(interp)@ == old(interp)@
                },
            },
    {
        let chars = str_chars(name);
        match interp.binding_frame(env.frame, &chars) {
            Some(f) => {
                interp.define(f, chars, val);
                Ok(())
            },
            None => Err(unbound_error(&chars)),
        }
    }
}

impl Environment {
    /// A new empty environment that extends none.
    pub fn new(interp: &mut Interpreter) -> (e: Environment)
        requires
            old(interp).ok(),
        ensures
            final(interp).ok(),
            (final(interp)@, e.frame) == new_root(old(interp)@),
    {
        Environment { frame: interp.new_root_frame() }
    }

    /// A new empty environment that extends this one.
    pub fn child(&self, interp: &mut Interpreter) -> (e: Environment)
        requires
            old(interp).ok(),
            self.frame < old(interp)@.frames.len(),
        ensures
            final(interp).ok(),
            (final(interp)@, e.frame) == new_frame(old(interp)@, self.frame),
    {
        Environment { frame: interp.new_frame(self.frame) }
    }

    /// Binds `name` to `value` in this environment's own frame, replacing a
    /// binding of `name` there.
    pub fn define(&self, interp: &mut Interpreter, name: &str, value: Value)
        requires
            old(interp).ok(),
            self.frame < old(interp)@.frames.len(),
            value_ok(value@, old(interp)@.frames.len(), old(interp)@.strings.len()),
        ensures
            final(interp).ok(),
            final(interp)@ == define(old(interp)@, self.frame as int, name@, value@),
    {
        interp.define(self.frame, str_chars(name), value);
    }

    /// The value bound to `name` here or in an environment this one extends.
    pub fn lookup(&self, interp: &Interpreter, name: &str) -> (r: Option<Value>)
        requires
            interp.ok(),
        ensures
            match lookup(interp@.frames, self.frame as int, name@) {
                Some(v) => r matches Some(x) && x@ == v,
                None => r is None,
            },
    {
        let chars = str_chars(name);
        interp.lookup(self.frame, &chars)
    }

    /// Rebinds the nearest binding of `name`; `false`, with nothing changed,
    /// when there is none.
    pub fn set(&self, interp: &mut Interpreter, name: &str, value: Value) -> (r: bool)
        requires
            old(interp).ok(),
            value_ok(value@, old(interp)@.frames.len(), old(interp)@.strings.len()),
        ensures
            final(interp).ok(),
            r == (binding_frame(old(interp)@.frames, self.frame as int, name@) != -1),
            final(interp)@ == if r {
                define(old(interp)@, binding_frame(old(interp)@.frames, self.frame as int, name@), name@, value@)
            } else {
                old(interp)@
            },
    {
        let chars = str_chars(name);
        match interp.binding_frame(self.frame, &chars) {
            Some(f) => {
                interp.define(f, chars, value);
                true
            },
            None => false,
        }
    }
}

} // verus!
