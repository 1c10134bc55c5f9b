//! Environments: a stack of frames, each mapping symbol names to values.
//!
//! A name resolves to its binding in the innermost frame that binds it, so an inner frame
//! shadows the outer ones. New bindings always go to the innermost frame.

use vstd::hash_map::StringHashMap;
use vstd::prelude::*;

verus! {

/// The frames of an environment, the base frame first and the innermost last.
pub type Frames<V> = Seq<Map<Seq<char>, V>>;

/// The binding that `key` resolves to: the one in the innermost frame that binds it.
pub open spec fn lookup<V>(frames: Frames<V>, key: Seq<char>) -> Option<V>
    decreases frames.len(),
{
    if frames.len() == 0 {
        None
    } else if frames.last().contains_key(key) {
        Some(frames.last()[key])
    } else {
        lookup(frames.drop_last(), key)
    }
}

/// The frames after `key` is bound to `value` in the innermost frame; without a frame
/// nothing changes.
pub open spec fn bind<V>(frames: Frames<V>, key: Seq<char>, value: V) -> Frames<V> {
    if frames.len() == 0 {
        frames
    } else {
        frames.drop_last().push(frames.last().insert(key, value))
    }
}

/// The value that a lookup handed out, if any.
pub open spec fn found_value<V>(found: Option<&V>) -> Option<V> {
    match found {
        Some(value) => Some(*value),
        None => None,
    }
}

/// After a binding in the innermost frame, its key resolves to the new value and every other
/// key to what it resolved to before.
pub proof fn lemma_lookup_bind<V>(frames: Frames<V>, key: Seq<char>, value: V, other: Seq<char>)
    requires
        frames.len() > 0,
    ensures
        lookup(bind(frames, key, value), other) == if other == key {
            Some(value)
        } else {
            lookup(frames, other)
        },
{
    let bound = bind(frames, key, value);
    assert(bound.drop_last() =~= frames.drop_last());
}

/// Entering a scope changes no binding, and leaving it again restores the frames.
pub proof fn lemma_lookup_push<V>(frames: Frames<V>, key: Seq<char>)
    ensures
        lookup(frames.push(Map::empty()), key) == lookup(frames, key),
        frames.push(Map::empty()).drop_last() == frames,
{
}

/// Looking a key up changes nothing, so a second lookup of the same key, with no `put` in
/// between, finds what the first one found.
pub proof fn lemma_get_repeatable<V>(
    env: &Env<V>,
    key: &str,
    first: Option<&V>,
    second: Option<&V>,
)
    requires
        found_value(first) == lookup(env@, key@),
        found_value(second) == lookup(env@, key@),
    ensures
        found_value(first) == found_value(second),
{
}

/// A stack of symbol-name-to-value mappings with innermost-first lookup.
#[verifier::reject_recursive_types(V)]
pub struct Env<V> {
    stack: Vec<StringHashMap<V>>,
}

impl<V> View for Env<V> {
    type V = Frames<V>;

    closed spec fn view(&self) -> Frames<V> {
        self.stack@.map_values(|frame: StringHashMap<V>| frame@)
    }
}

impl<V> Env<V> {
    /// An environment whose only frame holds the bindings of `init`.
    pub fn new(init: StringHashMap<V>) -> (env: Env<V>)
        ensures
            env@ == seq![init@],
    {
        let mut stack = Vec::new();
        stack.push(init);
        let env = Env { stack };
        env
    }

    /// An environment with one empty frame.
    pub fn empty() -> (env: Env<V>)
        ensures
            env@ == seq![Map::<Seq<char>, V>::empty()],
    {
        Env::new(StringHashMap::new())
    }

    /// The value that `key` is bound to in the innermost frame that binds it.
    pub fn get(&self, key: &str) -> (found: Option<&V>)
        ensures
            found_value(found) == lookup(self@, key@),
    {
        let mut depth = self.stack.len();
        assert(self@.take(depth as int) =~= self@);
        while depth > 0
            invariant
                depth <= self.stack.len(),
                lookup(self@, key@) == lookup(self@.take(depth as int), key@),
            decreases depth,
        {
            depth = depth - 1;
            proof {
                let upto = self@.take(depth + 1);
                assert(upto.drop_last() =~= self@.take(depth as int));
            }
            if let Some(value) = self.stack[depth].get(key) {
                return Some(value);
            }
        }
        None
    }

    /// Binds `key` to `value` in the innermost frame, replacing an earlier binding of `key`
    /// there. Does nothing if there is no frame.
    pub fn put(&mut self, key: &str, value: V)
        ensures
            final(self)@ == bind(old(self)@, key@, value),
    {
        if let Some(mut top) = self.stack.pop() {
            top.insert(key.to_owned(), value);
            self.stack.push(top);
        }
    }

    /// Enters a scope: pushes an empty frame.
    pub fn push_env(&mut self)
        ensures
            final(self)@ == old(self)@.push(Map::<Seq<char>, V>::empty()),
    {
        self.stack.push(StringHashMap::new());
    }

    /// Leaves a scope: removes the innermost frame and hands it back, `None` if there is no
    /// frame.
    pub fn pop_env(&mut self) -> (frame: Option<StringHashMap<V>>)
        ensures
            match frame {
                Some(top) => old(self)@.len() > 0 && top@ == old(self)@.last() && final(self)@
                    == old(self)@.drop_last(),
                None => old(self)@.len() == 0 && final(self)@ == old(self)@,
            },
    {
        let frame = self.stack.pop();
        assert(self@ =~= if frame is Some {
            old(self)@.drop_last()
        } else {
            old(self)@
        });
        frame
    }
}

} // verus!
