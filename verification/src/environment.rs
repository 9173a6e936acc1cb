//! The environment variables that word expansion reads, held as plain
//! values.

use vstd::prelude::*;

use crate::text::text_eq;

verus! {

/// The map that a list of `(name, value)` settings gives: a later setting
/// of a name replaces an earlier one.
pub open spec fn settings_map(v: Seq<(Seq<char>, Seq<char>)>) -> Map<Seq<char>, Seq<char>>
    decreases v.len(),
{
    if v.len() == 0 {
        Map::empty()
    } else {
        settings_map(v.drop_last()).insert(v.last().0, v.last().1)
    }
}

/// The models of a list of settings.
pub open spec fn setting_views(v: Seq<(String, String)>) -> Seq<(Seq<char>, Seq<char>)> {
    v.map_values(|p: (String, String)| (p.0@, p.1@))
}

/// A set of environment variables: names mapped to values.
pub struct Environment {
    vars: Vec<(String, String)>,
}

impl View for Environment {
    type V = Map<Seq<char>, Seq<char>>;

    closed spec fn view(&self) -> Map<Seq<char>, Seq<char>> {
        settings_map(setting_views(self.vars@))
    }
}

proof fn lemma_settings_unset(v: Seq<(Seq<char>, Seq<char>)>, i: int, k: Seq<char>)
    requires
        0 <= i <= v.len(),
        forall|j: int| i <= j < v.len() ==> (#[trigger] v[j]).0 != k,
    ensures
        settings_map(v).contains_key(k) == settings_map(v.take(i)).contains_key(k),
        settings_map(v).contains_key(k) ==> settings_map(v)[k] == settings_map(v.take(i))[k],
    decreases v.len() - i,
{
    if i < v.len() {
        lemma_settings_unset(v, i + 1, k);
        assert(v.take(i + 1).drop_last() =~= v.take(i));
        assert(v.take(i + 1).last() == v[i]);
    } else {
        assert(v.take(i) =~= v);
    }
}

impl Environment {
    /// An environment with no variables.
    pub fn new() -> (r: Self)
        ensures
            r@ == Map::<Seq<char>, Seq<char>>::empty(),
    {
        Environment { vars: Vec::new() }
    }

    /// Set `name` to `value`, replacing any value it had.
    pub fn set(&mut self, name: String, value: String)
        ensures
            final(self)@ == old(self)@.insert(name@, value@),
    {
        let ghost before = setting_views(self.vars@);
        self.vars.push((name, value));
        assert(setting_views(self.vars@).drop_last() =~= before);
    }

    /// The value of `name`, if it is set.
    pub fn get(&self, name: &str) -> (r: Option<String>)
        ensures
            match r {
                Some(v) => self@.contains_key(name@) && v@ == self@[name@],
                None => !self@.contains_key(name@),
            },
    {
        let ghost vs = setting_views(self.vars@);
        let mut i = self.vars.len();
        while i > 0
            invariant
                i <= self.vars@.len(),
                vs == setting_views(self.vars@),
                forall|j: int| i <= j < vs.len() ==> (#[trigger] vs[j]).0 != name@,
            decreases i,
        {
            let (n, v) = &self.vars[i - 1];
            assert(vs[i - 1] == (n@, v@));
            if text_eq(n.as_str(), name) {
                proof {
                    lemma_settings_unset(vs, i as int, name@);
                    assert(vs.take(i as int).drop_last() =~= vs.take(i - 1));
                }
                return Some(v.clone());
            }
            i = i - 1;
        }
        proof {
            lemma_settings_unset(vs, 0, name@);
            assert(vs.take(0) =~= Seq::<(Seq<char>, Seq<char>)>::empty());
        }
        None
    }
}

/// A read gives back what the last write of the same name wrote, and a
/// write leaves every other name as it was.
pub proof fn law_get_after_set(env: Map<Seq<char>, Seq<char>>, name: Seq<char>, value: Seq<char>, other: Seq<char>)
    requires
        other != name,
    ensures
        env.insert(name, value).contains_key(name),
        env.insert(name, value)[name] == value,
        env.insert(name, value).contains_key(other) == env.contains_key(other),
        env.contains_key(other) ==> env.insert(name, value)[other] == env[other],
{
}

} // verus!
