//! The scope chain: a stack of frames, each mapping names to values. The
//! innermost frame is last. `define` writes the innermost frame, `get` and
//! `assign` search the chain from the innermost frame outward.
//!
//! Each frame is an association vector searched from its newest entry
//! backward, so a redefined name shadows the older entry in the same frame;
//! its mathematical view is the finite map where the newest entry wins.

use crate::expr::{Literal, ValueView};
use crate::token_type::Token;
use vstd::prelude::*;

verus! {

/// An error raised during evaluation, carrying a description of the fault.
#[derive(Debug)]
pub struct RuntimeError {
    pub description: String,
}

/// The diagnostic for a name that is bound in no frame of the chain.
pub open spec fn undefined_var_msg(name: Seq<char>) -> Seq<char> {
    "Undefined variable "@ + name
}

/// Builds the diagnostic for an unresolved name.
pub fn make_undefined_var_msg(name: &String) -> (m: String)
    ensures
        m@ == undefined_var_msg(name@),
{
    let mut m = String::from_str("Undefined variable ");
    m.append(name.as_str());
    m
}

/// The map a frame denotes: entries applied oldest first, so the newest
/// entry for a name wins.
pub open spec fn frame_map(entries: Seq<(String, Literal)>) -> Map<Seq<char>, ValueView>
    decreases entries,
{
    if entries.len() == 0 {
        Map::empty()
    } else {
        frame_map(entries.drop_last()).insert(entries.last().0@, entries.last().1@)
    }
}

/// The value bound to `name`, searching from the innermost frame (the last)
/// outward; `None` when no frame binds it.
pub open spec fn env_lookup(env: Seq<Map<Seq<char>, ValueView>>, name: Seq<char>) -> Option<
    ValueView,
>
    decreases env.len(),
{
    if env.len() == 0 {
        Option::None
    } else if env.last().contains_key(name) {
        Option::Some(env.last()[name])
    } else {
        env_lookup(env.drop_last(), name)
    }
}

/// The chain after assigning `value` to `name` in the innermost frame that
/// already binds it; `None` when no frame binds it.
pub open spec fn env_assign_chain(
    env: Seq<Map<Seq<char>, ValueView>>,
    name: Seq<char>,
    value: ValueView,
) -> Option<Seq<Map<Seq<char>, ValueView>>>
    decreases env.len(),
{
    if env.len() == 0 {
        Option::None
    } else if env.last().contains_key(name) {
        Option::Some(env.drop_last().push(env.last().insert(name, value)))
    } else {
        match env_assign_chain(env.drop_last(), name, value) {
            Option::Some(e2) => Option::Some(e2.push(env.last())),
            Option::None => Option::None,
        }
    }
}

/// The chain after defining `name` in the innermost frame, shadowing any
/// existing binding there.
pub open spec fn env_define_chain(
    env: Seq<Map<Seq<char>, ValueView>>,
    name: Seq<char>,
    value: ValueView,
) -> Seq<Map<Seq<char>, ValueView>> {
    env.drop_last().push(env.last().insert(name, value))
}

/// A chain of scope frames. The root frame is created with the environment;
/// a child frame is pushed on entering a block and popped on leaving it.
#[derive(Debug)]
pub struct Environment {
    pub frames: Vec<Vec<(String, Literal)>>,
}

impl View for Environment {
    type V = Seq<Map<Seq<char>, ValueView>>;

    open spec fn view(&self) -> Seq<Map<Seq<char>, ValueView>> {
        self.frames@.map_values(|f: Vec<(String, Literal)>| frame_map(f@))
    }
}

/// In a frame searched backward, the entry at `j` decides `name` when it
/// carries `name` and no later entry does; the frame's map agrees.
proof fn lemma_frame_found(s: Seq<(String, Literal)>, name: Seq<char>, j: int)
    requires
        0 <= j < s.len(),
        s[j].0@ == name,
        forall|k: int| j < k < s.len() ==> (#[trigger] s[k]).0@ != name,
    ensures
        frame_map(s).contains_key(name),
        frame_map(s)[name] == s[j].1@,
    decreases s.len(),
{
    if j == s.len() - 1 {
    } else {
        assert(s.last().0@ != name);
        lemma_frame_found(s.drop_last(), name, j);
    }
}

/// A name carried by no entry is absent from the frame's map.
proof fn lemma_frame_absent(s: Seq<(String, Literal)>, name: Seq<char>)
    requires
        forall|k: int| 0 <= k < s.len() ==> (#[trigger] s[k]).0@ != name,
    ensures
        !frame_map(s).contains_key(name),
    decreases s.len(),
{
    if s.len() > 0 {
        lemma_frame_absent(s.drop_last(), name);
    }
}

/// Replacing the deciding entry of `name` updates the frame's map at `name`
/// and nothing else.
proof fn lemma_frame_update(s: Seq<(String, Literal)>, name: Seq<char>, j: int, p: (String, Literal))
    requires
        0 <= j < s.len(),
        s[j].0@ == name,
        forall|k: int| j < k < s.len() ==> (#[trigger] s[k]).0@ != name,
        p.0@ == name,
    ensures
        frame_map(s.update(j, p)) =~= frame_map(s).insert(name, p.1@),
    decreases s.len(),
{
    let s2 = s.update(j, p);
    if j == s.len() - 1 {
        assert(s2.drop_last() =~= s.drop_last());
        assert(s2.last() == p);
    } else {
        assert(s.last().0@ != name);
        assert(s2.drop_last() =~= s.drop_last().update(j, p));
        assert(s2.last() == s.last());
        lemma_frame_update(s.drop_last(), name, j, p);
    }
}

impl Environment {
    /// A fresh chain holding only an empty root frame.
    pub fn new() -> (e: Environment)
        ensures
            e@ =~= seq![Map::<Seq<char>, ValueView>::empty()],
    {
        let mut frames: Vec<Vec<(String, Literal)>> = Vec::new();
        frames.push(Vec::new());
        let e = Environment { frames };
        proof {
            assert(e@[0] =~= Map::<Seq<char>, ValueView>::empty());
        }
        e
    }

    /// How many frames the chain holds.
    pub fn depth(&self) -> (n: usize)
        ensures
            n == self@.len(),
    {
        self.frames.len()
    }

    /// Enters a scope: pushes an empty child frame.
    pub fn push_frame(&mut self)
        ensures
            final(self)@ =~= old(self)@.push(Map::empty()),
    {
        self.frames.push(Vec::new());
        proof {
            assert(self@[self@.len() - 1] =~= Map::<Seq<char>, ValueView>::empty());
            assert(self@ =~= old(self)@.push(Map::empty()));
        }
    }

    /// Leaves a scope: drops the innermost frame.
    pub fn pop_frame(&mut self)
        requires
            old(self)@.len() > 0,
        ensures
            final(self)@ =~= old(self)@.drop_last(),
    {
        let li = self.frames.len() - 1;
        self.frames.remove(li);
        proof {
            assert(self@ =~= old(self)@.drop_last());
        }
    }

    /// Binds `name` in the innermost frame, shadowing any existing binding
    /// in that frame only. A missing value binds `Nil`.
    pub fn define(&mut self, name: String, value: Option<Literal>)
        requires
            old(self)@.len() > 0,
        ensures
            final(self)@ =~= env_define_chain(
                old(self)@,
                name@,
                match value {
                    Option::Some(v) => v@,
                    Option::None => ValueView::Nil,
                },
            ),
    {
        let ghost value_view: ValueView = match &value {
            Option::Some(v) => v@,
            Option::None => ValueView::Nil,
        };
        let v: Literal = match value {
            Option::Some(v) => v,
            Option::None => Literal::Nil,
        };
        let li = self.frames.len() - 1;
        let ghost name_view = name@;
        let fr = &mut self.frames[li];
        let ghost old_fr = *fr;
        fr.push((name, v));
        proof {
            assert(fr@.drop_last() =~= old_fr@);
            assert(frame_map(fr@) =~= frame_map(old_fr@).insert(name_view, value_view));
            assert(self@ =~= env_define_chain(old(self)@, name_view, value_view));
        }
    }

    /// Looks `name` up, searching the chain from the innermost frame
    /// outward. Fails exactly when no frame binds the name, and then names
    /// it in the diagnostic.
    #[verifier::loop_isolation(false)]
    pub fn get(&self, name: Token) -> (r: Result<Literal, RuntimeError>)
        ensures
            match env_lookup(self@, name@.lexeme) {
                Option::Some(v) => r is Ok && r->Ok_0@ == v,
                Option::None => r is Err && r->Err_0.description@ == undefined_var_msg(
                    name@.lexeme,
                ),
            },
    {
        let ghost n = name@.lexeme;
        proof {
            assert(self@.take(self@.len() as int) =~= self@);
        }
        let mut fi: usize = self.frames.len();
        while fi > 0
            invariant
                0 <= fi <= self.frames.len(),
                env_lookup(self@, n) == env_lookup(self@.take(fi as int), n),
                n == name@.lexeme,
            decreases fi,
        {
            fi = fi - 1;
            let fr = &self.frames[fi];
            let ghost prefix = self@.take(fi + 1);
            assert(prefix.last() == frame_map(fr@));
            assert(prefix.drop_last() =~= self@.take(fi as int));
            let mut ej: usize = fr.len();
            while ej > 0
                invariant
                    0 <= ej <= fr.len(),
                    forall|k: int| ej <= k < fr@.len() ==> (#[trigger] fr@[k]).0@ != n,
                    n == name@.lexeme,
                decreases ej,
            {
                ej = ej - 1;
                if fr[ej].0 == name.lexeme {
                    proof {
                        lemma_frame_found(fr@, n, ej as int);
                        assert(env_lookup(prefix, n) == Option::Some(frame_map(fr@)[n]));
                        assert(env_lookup(self@, n) == Option::Some(fr@[ej as int].1@));
                    }
                    return Result::Ok(fr[ej].1.duplicate());
                }
            }
            proof {
                lemma_frame_absent(fr@, n);
            }
        }
        proof {
            assert(self@.take(0) =~= Seq::<Map<Seq<char>, ValueView>>::empty());
        }
        Result::Err(RuntimeError { description: make_undefined_var_msg(&name.lexeme) })
    }

    /// Assigns `value` to `name` in the innermost frame that already binds
    /// it; never creates a binding. Fails exactly when no frame binds the
    /// name, leaving the chain unchanged and naming it in the diagnostic.
    pub fn assign(&mut self, name: Token, value: Literal) -> (r: Result<(), RuntimeError>)
        ensures
            match env_assign_chain(old(self)@, name@.lexeme, value@) {
                Option::Some(e2) => r is Ok && final(self)@ =~= e2,
                Option::None => r is Err && final(self)@ =~= old(self)@ && r
                    ->Err_0.description@ == undefined_var_msg(name@.lexeme),
            },
    {
        let ghost n = name@.lexeme;
        let ghost vv = value@;
        proof {
            assert(old(self)@.take(old(self)@.len() as int) =~= old(self)@);
            assert(old(self)@.skip(old(self)@.len() as int) =~= Seq::<
                Map<Seq<char>, ValueView>,
            >::empty());
            if env_assign_chain(old(self)@, n, vv) is Some {
                let e2 = env_assign_chain(old(self)@, n, vv)->Some_0;
                assert(e2 + old(self)@.skip(old(self)@.len() as int) =~= e2);
            }
        }
        let mut fi: usize = self.frames.len();
        while fi > 0
            invariant
                0 <= fi <= self.frames.len(),
                self@ == old(self)@,
                n == name@.lexeme,
                vv == value@,
                env_assign_chain(old(self)@, n, vv) == (match env_assign_chain(
                    old(self)@.take(fi as int),
                    n,
                    vv,
                ) {
                    Option::Some(e2) => Option::Some(e2 + old(self)@.skip(fi as int)),
                    Option::None => Option::<Seq<Map<Seq<char>, ValueView>>>::None,
                }),
            decreases fi,
        {
            let ghost fi0 = fi as int;
            fi = fi - 1;
            let ghost prefix = self@.take(fi0);
            proof {
                assert(prefix.last() == self@[fi0 - 1]);
                assert(prefix.drop_last() =~= self@.take(fi0 - 1));
            }
            let mut found: bool = false;
            let mut ej: usize = self.frames[fi].len();
            while !found && ej > 0
                invariant
                    0 <= fi < self.frames.len(),
                    0 <= ej <= self.frames@[fi as int]@.len(),
                    forall|k: int|
                        (if found {
                            ej < k
                        } else {
                            ej <= k
                        }) && k < self.frames@[fi as int]@.len() ==> (#[trigger] (self.frames@[
                            fi as int]@[k])).0@ != n,
                    found ==> ej < self.frames@[fi as int]@.len() && (self.frames@[fi as int]@[
                        ej as int]).0@ == n,
                    n == name@.lexeme,
                decreases (if found {
                    0int
                } else {
                    ej as int + 1
                }),
            {
                ej = ej - 1;
                if self.frames[fi][ej].0 == name.lexeme {
                    found = true;
                }
            }
            if found {
                let ghost old_env = self@;
                let ghost old_frame = self.frames@[fi as int]@;
                let ghost p: (String, Literal) = (name.lexeme, value);
                proof {
                    lemma_frame_found(old_frame, n, ej as int);
                }
                self.frames[fi][ej] = (name.lexeme, value);
                proof {
                    assert(self.frames@[fi as int]@ =~= old_frame.update(ej as int, p));
                    lemma_frame_update(old_frame, n, ej as int, p);
                    assert(self@ =~= old_env.update(
                        fi as int,
                        frame_map(old_frame).insert(n, vv),
                    ));
                    assert(env_assign_chain(old_env.take(fi0), n, vv) == Option::Some(
                        old_env.take(fi0).drop_last().push(old_env[fi0 - 1].insert(n, vv)),
                    ));
                    assert(old_env.take(fi0).drop_last().push(old_env[fi0 - 1].insert(n, vv))
                        + old_env.skip(fi0) =~= old_env.update(
                        fi as int,
                        frame_map(old_frame).insert(n, vv),
                    ));
                }
                return Result::Ok(());
            }
            proof {
                lemma_frame_absent(self.frames@[fi0 - 1]@, n);
                assert(!prefix.last().contains_key(n));
                assert(env_assign_chain(old(self)@.take(fi0), n, vv) == (match env_assign_chain(
                    old(self)@.take(fi0 - 1),
                    n,
                    vv,
                ) {
                    Option::Some(e2) => Option::Some(e2.push(old(self)@[fi0 - 1])),
                    Option::None => Option::<Seq<Map<Seq<char>, ValueView>>>::None,
                }));
                if env_assign_chain(old(self)@.take(fi0 - 1), n, vv) is Some {
                    let e2 = env_assign_chain(old(self)@.take(fi0 - 1), n, vv)->Some_0;
                    assert(e2.push(old(self)@[fi0 - 1]) + old(self)@.skip(fi0) =~= e2 + old(
                        self,
                    )@.skip(fi0 - 1));
                }
            }
        }
        proof {
            assert(old(self)@.take(0) =~= Seq::<Map<Seq<char>, ValueView>>::empty());
        }
        Result::Err(RuntimeError { description: make_undefined_var_msg(&name.lexeme) })
    }
}

} // verus!
