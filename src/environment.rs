//! Scope frames: where variables live while a program runs.
use vstd::prelude::*;
use crate::ast::{LiteralValue, Value};
use crate::errors::{ErrorModel, InterpreterRuntimeError};
use crate::text::{chars_eq, chars_of, append_chars, copy_chars};

verus! {

/// One scope frame: names bound to values. A later binding of a name
/// hides an earlier one.
pub open spec fn frame_view(f: Seq<(Vec<char>, LiteralValue)>) -> Map<Seq<char>, Value>
    decreases f.len(),
{
    if f.len() == 0 {
        Map::empty()
    } else {
        frame_view(f.drop_last()).insert(f.last().0@, f.last().1@)
    }
}

/// The value of `k` in the innermost frame that binds it.
pub open spec fn env_lookup(frames: Seq<Map<Seq<char>, Value>>, k: Seq<char>) -> Option<Value>
    decreases frames.len(),
{
    if frames.len() == 0 {
        None
    } else if frames.last().contains_key(k) {
        Some(frames.last()[k])
    } else {
        env_lookup(frames.drop_last(), k)
    }
}

/// The frames after `k` is set to `v` in the innermost frame that binds
/// it, or `None` where no frame binds `k`.
pub open spec fn env_assign(frames: Seq<Map<Seq<char>, Value>>, k: Seq<char>, v: Value) -> Option<
    Seq<Map<Seq<char>, Value>>,
>
    decreases frames.len(),
{
    if frames.len() == 0 {
        None
    } else if frames.last().contains_key(k) {
        Some(frames.drop_last().push(frames.last().insert(k, v)))
    } else {
        match env_assign(frames.drop_last(), k, v) {
            Some(inner) => Some(inner.push(frames.last())),
            None => None,
        }
    }
}

/// The frames after `k` is declared with `v` in the innermost frame.
pub open spec fn env_define(frames: Seq<Map<Seq<char>, Value>>, k: Seq<char>, v: Value) -> Seq<
    Map<Seq<char>, Value>,
> {
    frames.drop_last().push(frames.last().insert(k, v))
}

proof fn lemma_assign_at(frames: Seq<Map<Seq<char>, Value>>, i: int, k: Seq<char>, v: Value)
    requires
        0 <= i < frames.len(),
        frames[i].contains_key(k),
        forall|j: int| i < j < frames.len() ==> !(#[trigger] frames[j]).contains_key(k),
    ensures
        env_assign(frames, k, v) == Some(frames.update(i, frames[i].insert(k, v))),
    decreases frames.len(),
{
    if i < frames.len() - 1 {
        let g = frames.drop_last();
        assert forall|j: int| i < j < g.len() implies !(#[trigger] g[j]).contains_key(k) by {
            assert(g[j] == frames[j]);
        }
        lemma_assign_at(g, i, k, v);
        assert(g.update(i, frames[i].insert(k, v)).push(frames.last()) =~= frames.update(i, frames[i].insert(k, v)));
    } else {
        assert(frames.drop_last().push(frames.last().insert(k, v)) =~= frames.update(i, frames[i].insert(k, v)));
    }
}

proof fn lemma_assign_none(frames: Seq<Map<Seq<char>, Value>>, k: Seq<char>, v: Value)
    requires
        forall|j: int| 0 <= j < frames.len() ==> !(#[trigger] frames[j]).contains_key(k),
    ensures
        env_assign(frames, k, v) is None,
        env_lookup(frames, k) is None,
    decreases frames.len(),
{
    if frames.len() > 0 {
        let g = frames.drop_last();
        assert forall|j: int| 0 <= j < g.len() implies !(#[trigger] g[j]).contains_key(k) by {
            assert(g[j] == frames[j]);
        }
        lemma_assign_none(g, k, v);
    }
}

pub struct Environment {
    values: Vec<Vec<(Vec<char>, LiteralValue)>>,
}

impl View for Environment {
    type V = Seq<Map<Seq<char>, Value>>;

    closed spec fn view(&self) -> Seq<Map<Seq<char>, Value>> {
        self.values@.map_values(|f: Vec<(Vec<char>, LiteralValue)>| frame_view(f@))
    }
}

proof fn lemma_frame_found(f: Seq<(Vec<char>, LiteralValue)>, j: int, k: Seq<char>)
    requires
        0 <= j < f.len(),
        f[j].0@ == k,
        forall|i: int| j < i < f.len() ==> (#[trigger] f[i]).0@ != k,
    ensures
        frame_view(f).contains_key(k),
        frame_view(f)[k] == f[j].1@,
    decreases f.len(),
{
    if j < f.len() - 1 {
        let g = f.drop_last();
        assert forall|i: int| j < i < g.len() implies (#[trigger] g[i]).0@ != k by {
            assert(g[i] == f[i]);
        }
        lemma_frame_found(g, j, k);
    }
}

proof fn lemma_frame_absent(f: Seq<(Vec<char>, LiteralValue)>, k: Seq<char>)
    requires
        forall|i: int| 0 <= i < f.len() ==> (#[trigger] f[i]).0@ != k,
    ensures
        !frame_view(f).contains_key(k),
    decreases f.len(),
{
    if f.len() > 0 {
        let g = f.drop_last();
        assert forall|i: int| 0 <= i < g.len() implies (#[trigger] g[i]).0@ != k by {
            assert(g[i] == f[i]);
        }
        lemma_frame_absent(g, k);
    }
}

proof fn lemma_frame_update(f: Seq<(Vec<char>, LiteralValue)>, j: int, x: (Vec<char>, LiteralValue))
    requires
        0 <= j < f.len(),
        f[j].0@ == x.0@,
        forall|i: int| j < i < f.len() ==> (#[trigger] f[i]).0@ != x.0@,
    ensures
        frame_view(f.update(j, x)) == frame_view(f).insert(x.0@, x.1@),
    decreases f.len(),
{
    let g = f.update(j, x);
    if j == f.len() - 1 {
        assert(g.drop_last() =~= f.drop_last());
        assert(frame_view(g) =~= frame_view(f).insert(x.0@, x.1@));
    } else {
        let h = f.drop_last();
        assert(g.drop_last() =~= h.update(j, x));
        assert forall|i: int| j < i < h.len() implies (#[trigger] h[i]).0@ != x.0@ by {
            assert(h[i] == f[i]);
        }
        lemma_frame_update(h, j, x);
        assert(f.last().0@ != x.0@);
        assert(frame_view(g) =~= frame_view(f).insert(x.0@, x.1@));
    }
}

/// Index of the last binding of `name` in `frame`.
fn find_in_frame(frame: &Vec<(Vec<char>, LiteralValue)>, name: &Vec<char>) -> (r: Option<usize>)
    ensures
        match r {
            Some(j) => j < frame@.len() && frame@[j as int].0@ == name@
                && forall|i: int| j < i < frame@.len() ==> (#[trigger] frame@[i]).0@ != name@,
            None => forall|i: int| 0 <= i < frame@.len() ==> (#[trigger] frame@[i]).0@ != name@,
        },
{
    let mut j = frame.len();
    while j > 0
        invariant
            j <= frame@.len(),
            forall|i: int| j <= i < frame@.len() ==> (#[trigger] frame@[i]).0@ != name@,
        decreases j,
    {
        j = j - 1;
        if chars_eq(&frame[j].0, name) {
            return Some(j);
        }
    }
    None
}

impl Environment {
    /// The global frame is never removed.
    pub closed spec fn wf(&self) -> bool {
        self.values@.len() >= 1
    }

    /// A well-formed environment has at least the global frame.
    pub proof fn lemma_wf(&self)
        requires
            self.wf(),
        ensures
            self@.len() >= 1,
    {
    }

    proof fn lemma_view(&self)
        ensures
            self@.len() == self.values@.len(),
            forall|i: int| 0 <= i < self.values@.len() ==> #[trigger] self@[i] == frame_view(self.values@[i]@),
    {
    }

    /// An environment with only the global frame, empty.
    pub fn new() -> (r: Self)
        ensures
            r.wf(),
            r@ == seq![Map::<Seq<char>, Value>::empty()],
    {
        let mut values: Vec<Vec<(Vec<char>, LiteralValue)>> = Vec::new();
        values.push(Vec::new());
        let r = Environment { values };
        proof {
            assert(r@ =~= seq![Map::<Seq<char>, Value>::empty()]);
        }
        r
    }

    pub fn create_new_scope(&mut self)
        requires
            old(self).wf(),
        ensures
            final(self).wf(),
            final(self)@ == old(self)@.push(Map::empty()),
    {
        self.values.push(Vec::new());
        proof {
            assert(self@ =~= old(self)@.push(Map::empty()));
        }
    }

    /// Removes the innermost frame; the global frame stays.
    pub fn delete_most_recent_scope(&mut self)
        requires
            old(self).wf(),
            old(self)@.len() > 1,
        ensures
            final(self).wf(),
            final(self)@ == old(self)@.drop_last(),
    {
        proof {
            self.lemma_view();
        }
        self.values.pop();
        proof {
            assert(self@ =~= old(self)@.drop_last());
        }
    }

    /// Declares `name` in the innermost frame.
    pub fn define(&mut self, name: Vec<char>, value: LiteralValue)
        requires
            old(self).wf(),
        ensures
            final(self).wf(),
            final(self)@ == env_define(old(self)@, name@, value@),
            final(self)@.len() == old(self)@.len(),
    {
        proof {
            self.lemma_view();
        }
        let last = self.values.len() - 1;
        let mut frame: Vec<(Vec<char>, LiteralValue)> = Vec::new();
        std::mem::swap(&mut frame, &mut self.values[last]);
        let ghost old_frame = frame@;
        match find_in_frame(&frame, &name) {
            Some(j) => {
                let ghost x = (name, value);
                proof {
                    lemma_frame_update(old_frame, j as int, (name, value));
                }
                frame.set(j, (name, value));
            },
            None => {
                let ghost x = (name, value);
                frame.push((name, value));
                proof {
                    assert(frame@.drop_last() =~= old_frame);
                }
            },
        }
        self.values.set(last, frame);
        proof {
            assert(self@ =~= env_define(old(self)@, name@, value@));
        }
    }

    /// The value of `name` in the innermost frame that binds it.
    pub fn get(&self, name: &Vec<char>) -> (r: Option<&LiteralValue>)
        ensures
            match env_lookup(self@, name@) {
                Some(v) => r is Some && r->Some_0@ == v,
                None => r is None,
            },
    {
        proof {
            self.lemma_view();
        }
        let mut i = self.values.len();
        proof {
            assert(self@.take(i as int) =~= self@);
        }
        while i > 0
            invariant
                i <= self.values@.len(),
                self@.len() == self.values@.len(),
                forall|x: int| 0 <= x < self.values@.len() ==> #[trigger] self@[x] == frame_view(self.values@[x]@),
                env_lookup(self@.take(i as int), name@) == env_lookup(self@, name@),
            decreases i,
        {
            let ghost pre = self@.take(i as int);
            proof {
                assert(pre.drop_last() =~= self@.take(i - 1));
            }
            match find_in_frame(&self.values[i - 1], name) {
                Some(j) => {
                    proof {
                        lemma_frame_found(self.values@[i - 1]@, j as int, name@);
                    }
                    return Some(&self.values[i - 1][j].1);
                },
                None => {
                    proof {
                        lemma_frame_absent(self.values@[i - 1]@, name@);
                    }
                },
            }
            i = i - 1;
        }
        None
    }

    /// Sets `name` to `value` in the innermost frame that binds it, and
    /// gives the value back. Where no frame binds `name` nothing changes
    /// and the error names it; it has no position.
    pub fn assign(&mut self, name: &Vec<char>, value: LiteralValue) -> (r: Result<LiteralValue, InterpreterRuntimeError>)
        requires
            old(self).wf(),
        ensures
            final(self).wf(),
            match env_assign(old(self)@, name@, value@) {
                Some(frames) => r is Ok && r->Ok_0@ == value@ && final(self)@ == frames,
                None => r is Err && final(self)@ == old(self)@ && r->Err_0@ == (ErrorModel {
                    message: "The variable "@ + name@ + " is not defined."@,
                    line: 0,
                    col: 0,
                }),
            },
            final(self)@.len() == old(self)@.len(),
    {
        proof {
            self.lemma_view();
        }
        let mut i = self.values.len();
        while i > 0
            invariant
                i <= self.values@.len(),
                self.values@.len() >= 1,
                self == old(self),
                self@.len() == self.values@.len(),
                forall|x: int| 0 <= x < self.values@.len() ==> #[trigger] self@[x] == frame_view(self.values@[x]@),
                forall|j: int| i <= j < self@.len() ==> !(#[trigger] self@[j]).contains_key(name@),
            decreases i,
        {
            match find_in_frame(&self.values[i - 1], name) {
                Some(j) => {
                    let ghost frames = self@;
                    proof {
                        lemma_frame_found(self.values@[i - 1]@, j as int, name@);
                        lemma_assign_at(frames, i - 1, name@, value@);
                    }
                    let result = value.copied();
                    let mut frame: Vec<(Vec<char>, LiteralValue)> = Vec::new();
                    std::mem::swap(&mut frame, &mut self.values[i - 1]);
                    let ghost old_frame = frame@;
                    let key = copy_chars(name);
                    proof {
                        lemma_frame_update(old_frame, j as int, (key, value));
                    }
                    frame.set(j, (key, value));
                    self.values.set(i - 1, frame);
                    proof {
                        assert(self@ =~= frames.update(i - 1, frames[i - 1].insert(name@, value@)));
                    }
                    return Ok(result);
                },
                None => {
                    proof {
                        lemma_frame_absent(self.values@[i - 1]@, name@);
                    }
                },
            }
            i = i - 1;
        }
        proof {
            lemma_assign_none(self@, name@, value@);
        }
        let mut message = chars_of("The variable ");
        append_chars(&mut message, name);
        let tail = chars_of(" is not defined.");
        append_chars(&mut message, &tail);
        Err(InterpreterRuntimeError { message, line: 0, col: 0 })
    }
}

} // verus!
