use crate::interpreter::{RuntimeError, Value, ValueV};
use crate::token::Token;
use vstd::prelude::*;

verus! {

/// One name-to-value binding inside a frame.
pub struct Binding {
    pub name: String,
    pub value: Value,
}

impl View for Binding {
    type V = (Seq<char>, ValueV);

    open spec fn view(&self) -> (Seq<char>, ValueV) {
        (self.name@, self.value@)
    }
}

/// One lexical frame: the bindings made in one scope, oldest first.
/// A later entry for the same name shadows an earlier one, so the last
/// write wins, as re-declaration in the same scope demands.
pub struct Frame {
    pub bindings: Vec<Binding>,
}

impl View for Frame {
    type V = Seq<(Seq<char>, ValueV)>;

    open spec fn view(&self) -> Seq<(Seq<char>, ValueV)> {
        self.bindings@.map_values(|b: Binding| b@)
    }
}

/// Model of one frame's bindings.
pub type FrameV = Seq<(Seq<char>, ValueV)>;

/// Model of the whole scope chain: frames outermost first, the current
/// frame last.
pub type EnvV = Seq<FrameV>;

/// The value bound to `name` in one frame, if any; the latest binding wins.
pub open spec fn frame_lookup(f: FrameV, name: Seq<char>) -> Option<ValueV>
    decreases f.len(),
{
    if f.len() == 0 {
        None
    } else if f.last().0 == name {
        Some(f.last().1)
    } else {
        frame_lookup(f.drop_last(), name)
    }
}

/// The value bound to `name`, searching from the innermost frame outward.
pub open spec fn env_lookup(e: EnvV, name: Seq<char>) -> Option<ValueV>
    decreases e.len(),
{
    if e.len() == 0 {
        None
    } else {
        match frame_lookup(e.last(), name) {
            Some(v) => Some(v),
            None => env_lookup(e.drop_last(), name),
        }
    }
}

/// Binding `name` in the current (innermost) frame, shadowing any earlier
/// binding of the same name there.
pub open spec fn env_define(e: EnvV, name: Seq<char>, v: ValueV) -> EnvV {
    if e.len() == 0 {
        e
    } else {
        e.update(e.len() - 1, e.last().push((name, v)))
    }
}

/// Re-binding `name` in the nearest frame that already defines it; `None`
/// when no frame does. Assignment never creates a new binding in a frame
/// that lacks one.
pub open spec fn env_assign(e: EnvV, name: Seq<char>, v: ValueV) -> Option<EnvV>
    decreases e.len(),
{
    if e.len() == 0 {
        None
    } else if frame_lookup(e.last(), name) is Some {
        Some(e.update(e.len() - 1, e.last().push((name, v))))
    } else {
        match env_assign(e.drop_last(), name, v) {
            Some(e2) => Some(e2.push(e.last())),
            None => None,
        }
    }
}

/// Leaving a block: the innermost frame is unlinked and dropped.
pub open spec fn env_pop(e: EnvV) -> EnvV {
    if e.len() == 0 {
        e
    } else {
        e.drop_last()
    }
}

/// The message carried by the error that `get` raises.
pub open spec fn undefined_get_message(name: Seq<char>) -> Seq<char> {
    "Undefined variable "@ + name + "."@
}

/// The message carried by the error that `assign` raises.
pub open spec fn undefined_assign_message(name: Seq<char>) -> Seq<char> {
    "Undefined variable '"@ + name + "'"@
}

/// A chain of lexical frames, the global frame first and the current
/// frame last. Lookups and assignments walk from innermost to outermost.
pub struct Environment {
    frames: Vec<Frame>,
}

impl View for Environment {
    type V = EnvV;

    closed spec fn view(&self) -> EnvV {
        self.frames@.map_values(|f: Frame| f@)
    }
}

impl Frame {
    /// The value bound to `name` in this frame, if any.
    fn get_value(&self, name: &String) -> (r: Option<Value>)
        ensures
            match frame_lookup(self@, name@) {
                Some(v) => r is Some && r->Some_0@ == v,
                None => r is None,
            },
    {
        let ghost fv = self@;
        let mut j: usize = self.bindings.len();
        proof {
            assert(fv.take(j as int) =~= fv);
        }
        while j > 0
            invariant
                j <= self.bindings.len(),
                fv == self@,
                frame_lookup(fv, name@) == frame_lookup(fv.take(j as int), name@),
            decreases j,
        {
            proof {
                assert(fv.take(j as int).last() == fv[j - 1]);
                assert(fv.take(j as int).drop_last() =~= fv.take(j as int - 1));
            }
            if self.bindings[j - 1].name == *name {
                return Some(self.bindings[j - 1].value.duplicate());
            }
            j = j - 1;
        }
        proof {
            assert(fv.take(0) =~= Seq::<(Seq<char>, ValueV)>::empty());
        }
        None
    }
}

/// All frames of `e` at positions `fi` and above lack a binding for `name`.
spec fn frames_above_miss(e: EnvV, name: Seq<char>, fi: int) -> bool {
    forall|k: int| fi <= k < e.len() ==> frame_lookup(#[trigger] e[k], name) is None
}

/// When every frame from `fi + 1` up misses and frame `fi` hits, the chain
/// lookup returns frame `fi`'s binding.
proof fn lemma_env_lookup_at(e: EnvV, name: Seq<char>, fi: int)
    requires
        0 <= fi < e.len(),
        frames_above_miss(e, name, fi + 1),
        frame_lookup(e[fi], name) is Some,
    ensures
        env_lookup(e, name) == frame_lookup(e[fi], name),
    decreases e.len(),
{
    if fi == e.len() - 1 {
    } else {
        assert(frame_lookup(e.last(), name) is None);
        assert(e.drop_last()[fi] == e[fi]);
        lemma_env_lookup_at(e.drop_last(), name, fi);
    }
}

/// When every frame misses, the chain lookup misses.
proof fn lemma_env_lookup_none(e: EnvV, name: Seq<char>)
    requires
        frames_above_miss(e, name, 0),
    ensures
        env_lookup(e, name) is None,
    decreases e.len(),
{
    if e.len() > 0 {
        lemma_env_lookup_none(e.drop_last(), name);
    }
}

/// When every frame above `fi` misses and frame `fi` hits, assignment
/// updates exactly frame `fi`.
proof fn lemma_env_assign_at(e: EnvV, name: Seq<char>, v: ValueV, fi: int)
    requires
        0 <= fi < e.len(),
        frames_above_miss(e, name, fi + 1),
        frame_lookup(e[fi], name) is Some,
    ensures
        env_assign(e, name, v) == Some(e.update(fi, e[fi].push((name, v)))),
    decreases e.len(),
{
    if fi == e.len() - 1 {
    } else {
        assert(frame_lookup(e.last(), name) is None);
        assert(e.drop_last()[fi] == e[fi]);
        lemma_env_assign_at(e.drop_last(), name, v, fi);
        assert(e.drop_last().update(fi, e[fi].push((name, v))).push(e.last()) =~= e.update(
            fi,
            e[fi].push((name, v)),
        ));
    }
}

/// When every frame misses, assignment fails.
proof fn lemma_env_assign_none(e: EnvV, name: Seq<char>, v: ValueV)
    requires
        frames_above_miss(e, name, 0),
    ensures
        env_assign(e, name, v) is None,
    decreases e.len(),
{
    if e.len() > 0 {
        lemma_env_assign_none(e.drop_last(), name, v);
    }
}

/// Law: assignment succeeds exactly when the name is defined somewhere in
/// the chain.
pub proof fn lemma_assign_defined(e: EnvV, name: Seq<char>, v: ValueV)
    ensures
        env_assign(e, name, v) is Some <==> env_lookup(e, name) is Some,
    decreases e.len(),
{
    if e.len() > 0 && frame_lookup(e.last(), name) is None {
        lemma_assign_defined(e.drop_last(), name, v);
    }
}

/// Law: assignment keeps the shape of the chain.
pub proof fn lemma_assign_len(e: EnvV, name: Seq<char>, v: ValueV, e2: EnvV)
    requires
        env_assign(e, name, v) == Some(e2),
    ensures
        e2.len() == e.len(),
    decreases e.len(),
{
    if e.len() > 0 && frame_lookup(e.last(), name) is None {
        lemma_assign_len(e.drop_last(), name, v, env_assign(e.drop_last(), name, v)->Some_0);
    }
}

/// Law: defining binds the name to the value and leaves every other name
/// as it was.
pub proof fn lemma_define_lookup(e: EnvV, name: Seq<char>, v: ValueV)
    requires
        e.len() >= 1,
    ensures
        env_lookup(env_define(e, name, v), name) == Some(v),
        forall|m: Seq<char>|
            m != name ==> env_lookup(env_define(e, name, v), m) == env_lookup(e, m),
{
    let e2 = env_define(e, name, v);
    assert(e2.last() == e.last().push((name, v)));
    assert(e2.last().drop_last() =~= e.last());
    assert(env_lookup(e2, name) == Some(v));
    assert forall|m: Seq<char>| m != name implies env_lookup(e2, m) == env_lookup(e, m) by {
        assert(frame_lookup(e2.last(), m) == frame_lookup(e.last(), m));
        assert(e2.drop_last() =~= e.drop_last());
    }
}

/// Law: a successful assignment binds the name to the value and leaves
/// every other name as it was.
pub proof fn lemma_assign_lookup(e: EnvV, name: Seq<char>, v: ValueV, e2: EnvV)
    requires
        env_assign(e, name, v) == Some(e2),
    ensures
        env_lookup(e2, name) == Some(v),
        forall|m: Seq<char>| m != name ==> env_lookup(e2, m) == env_lookup(e, m),
    decreases e.len(),
{
    if frame_lookup(e.last(), name) is Some {
        assert(e2.last() == e.last().push((name, v)));
        assert(e2.last().drop_last() =~= e.last());
        assert(env_lookup(e2, name) == Some(v));
        assert forall|m: Seq<char>| m != name implies env_lookup(e2, m) == env_lookup(e, m) by {
            assert(frame_lookup(e2.last(), m) == frame_lookup(e.last(), m));
            assert(e2.drop_last() =~= e.drop_last());
        }
    } else {
        assert(env_assign(e.drop_last(), name, v) is Some);
        let inner = env_assign(e.drop_last(), name, v)->Some_0;
        assert(e2 == inner.push(e.last()));
        lemma_assign_lookup(e.drop_last(), name, v, inner);
        assert(e2.last() == e.last());
        assert(e2.drop_last() =~= inner);
        assert(env_lookup(e2, name) == Some(v));
        assert forall|m: Seq<char>| m != name implies env_lookup(e2, m) == env_lookup(e, m) by {
            assert(frame_lookup(e2.last(), m) == frame_lookup(e.last(), m));
            assert(env_lookup(inner, m) == env_lookup(e.drop_last(), m));
        }
    }
}

/// Law: a name defined in a freshly entered scope shadows an outer binding
/// of the same name without disturbing any other name, and leaving the
/// scope restores the chain exactly as it was.
pub proof fn lemma_scope_shadowing(e: EnvV, f: FrameV, name: Seq<char>, v: ValueV)
    requires
        e.len() >= 1,
    ensures
        env_lookup(env_define(e.push(f), name, v), name) == Some(v),
        forall|m: Seq<char>|
            m != name ==> env_lookup(env_define(e.push(f), name, v), m) == env_lookup(
                e.push(f),
                m,
            ),
        env_define(e.push(f), name, v).drop_last() =~= e,
{
    lemma_define_lookup(e.push(f), name, v);
    assert(env_define(e.push(f), name, v).drop_last() =~= e);
}

/// Law: entering a scope with an empty frame changes no lookup.
pub proof fn lemma_scope_entry(e: EnvV, name: Seq<char>)
    ensures
        env_lookup(e.push(Seq::empty()), name) == env_lookup(e, name),
{
    assert(e.push(Seq::<(Seq<char>, ValueV)>::empty()).drop_last() =~= e);
}

fn make_get_error(name: &String) -> (r: RuntimeError)
    ensures
        r.message@ == undefined_get_message(name@),
{
    let mut m = String::from_str("Undefined variable ");
    m.append(name.as_str());
    m.append(".");
    RuntimeError { message: m }
}

fn make_assign_error(name: &String) -> (r: RuntimeError)
    ensures
        r.message@ == undefined_assign_message(name@),
{
    let mut m = String::from_str("Undefined variable '");
    m.append(name.as_str());
    m.append("'");
    RuntimeError { message: m }
}

impl Environment {
    /// A fresh chain holding only the global frame.
    pub fn new() -> (r: Environment)
        ensures
            r@ == seq![Seq::<(Seq<char>, ValueV)>::empty()],
    {
        let mut frames: Vec<Frame> = Vec::new();
        frames.push(Frame { bindings: Vec::new() });
        let r = Environment { frames };
        proof {
            assert(r@ =~~= seq![Seq::<(Seq<char>, ValueV)>::empty()]);
        }
        r
    }

    /// Enters a block: installs a fresh innermost frame.
    pub fn push_frame(&mut self)
        ensures
            final(self)@ == old(self)@.push(Seq::empty()),
    {
        let ghost env0 = self@;
        self.frames.push(Frame { bindings: Vec::new() });
        proof {
            assert(self@ =~~= env0.push(Seq::empty()));
        }
    }

    /// Leaves a block: unlinks and drops the innermost frame.
    pub fn pop_frame(&mut self)
        requires
            old(self)@.len() >= 2,
        ensures
            final(self)@ == old(self)@.drop_last(),
    {
        let ghost env0 = self@;
        self.frames.pop();
        proof {
            assert(self@ =~~= env0.drop_last());
        }
    }

    /// How many frames the chain holds.
    pub fn depth(&self) -> (n: usize)
        ensures
            n == self@.len(),
    {
        self.frames.len()
    }

    /// Unconditionally binds `name` in the current frame; an absent
    /// initializer binds nil. Re-declaration overwrites: the last write
    /// wins.
    pub fn define(&mut self, name: &str, value: Option<Value>)
        requires
            old(self)@.len() >= 1,
        ensures
            final(self)@ == env_define(
                old(self)@,
                name@,
                match value {
                    Some(v) => v@,
                    None => ValueV::Nil,
                },
            ),
    {
        let ghost env0 = self@;
        let ghost vv = match &value {
            Some(v) => v@,
            None => ValueV::Nil,
        };
        let v = match value {
            Some(v) => v,
            None => Value::Nil,
        };
        let fi = self.frames.len() - 1;
        self.frames[fi].bindings.push(Binding { name: name.to_owned(), value: v });
        proof {
            assert(self@ =~~= env0.update(fi as int, env0[fi as int].push((name@, vv))));
        }
    }

    /// Re-binds `name` in the nearest frame that defines it; fails with an
    /// undefined-variable error, and changes nothing, when no frame does.
    #[verifier::loop_isolation(false)]
    pub fn assign(&mut self, name: &str, value: Value) -> (r: Result<(), RuntimeError>)
        ensures
            r is Ok <==> env_lookup(old(self)@, name@) is Some,
            match env_assign(old(self)@, name@, value@) {
                Some(e2) => r is Ok && final(self)@ == e2,
                None => r is Err && final(self)@ == old(self)@ && r->Err_0.message@
                    == undefined_assign_message(name@),
            },
    {
        let ghost env0 = self@;
        let ghost vv = value@;
        let name_s = name.to_owned();
        let mut fi = self.frames.len();
        while fi > 0
            invariant
                fi <= self.frames.len(),
                self@ == env0,
                vv == value@,
                name_s@ == name@,
                frames_above_miss(env0, name@, fi as int),
            decreases fi,
        {
            if self.frames[fi - 1].get_value(&name_s).is_some() {
                proof {
                    assert(self.frames@[fi as int - 1]@ == env0[fi as int - 1]);
                    assert(frame_lookup(env0[fi as int - 1], name@) is Some);
                    lemma_env_assign_at(env0, name@, vv, fi as int - 1);
                    lemma_assign_defined(env0, name@, vv);
                    lemma_env_lookup_at(env0, name@, fi as int - 1);
                }
                let fj = fi - 1;
                self.frames[fj].bindings.push(Binding { name: name_s, value });
                proof {
                    assert(self@ =~~= env0.update(fj as int, env0[fj as int].push((name@, vv))));
                }
                return Ok(());
            }
            fi = fi - 1;
        }
        proof {
            lemma_env_assign_none(env0, name@, vv);
            lemma_env_lookup_none(env0, name@);
        }
        Err(make_assign_error(&name_s))
    }

    /// The value bound to the token's identifier, searching from the
    /// current frame outward; fails with an undefined-variable error when
    /// no frame defines it.
    pub fn get(&self, token: &Token) -> (r: Result<Value, RuntimeError>)
        ensures
            match env_lookup(self@, token@.lexeme) {
                Some(v) => r is Ok && r->Ok_0@ == v,
                None => r is Err && r->Err_0.message@ == undefined_get_message(token@.lexeme),
            },
    {
        let ghost env0 = self@;
        let name = &token.lexeme;
        let mut fi = self.frames.len();
        while fi > 0
            invariant
                fi <= self.frames.len(),
                self@ == env0,
                name@ == token@.lexeme,
                frames_above_miss(env0, name@, fi as int),
            decreases fi,
        {
            match self.frames[fi - 1].get_value(name) {
                Some(v) => {
                    proof {
                        lemma_env_lookup_at(env0, name@, fi as int - 1);
                    }
                    return Ok(v);
                },
                None => {},
            }
            fi = fi - 1;
        }
        proof {
            lemma_env_lookup_none(env0, name@);
        }
        Err(make_get_error(name))
    }
}

} // verus!
