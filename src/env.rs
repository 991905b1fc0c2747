//! The environment kinds that the scanner recognises, and their display rules.

use vstd::prelude::*;

verus! {

/// What a kind shows in its header: `(display name, emphasis delimiter)`.
pub type EnvView = (Seq<char>, Seq<char>);

/// One configured kind: `(key, display name, emphasis delimiter)`.
pub type EnvEntryView = (Seq<char>, Seq<char>, Seq<char>);

/// An environment handled by the preprocessor.
#[derive(Debug)]
pub struct Env {
    /// The name to display in the header, e.g. "Theorem".
    pub name: String,
    /// The markdown emphasis delimiter put around the header, e.g. "**" for bold.
    pub emph: String,
}

impl View for Env {
    type V = EnvView;

    open spec fn view(&self) -> EnvView {
        (self.name@, self.emph@)
    }
}

impl Clone for Env {
    fn clone(&self) -> (r: Env)
        ensures
            r@ == self@,
    {
        Env { name: self.name.clone(), emph: self.emph.clone() }
    }
}

pub open spec fn name_default_spec() -> Seq<char> {
    seq!['E', 'n', 'v', 'i', 'r', 'o', 'n', 'm', 'e', 'n', 't']
}

pub open spec fn emph_default_spec() -> Seq<char> {
    seq!['*', '*']
}

impl Env {
    pub fn create(name: &str, emph: &str) -> (r: Env)
        ensures
            r@ == (name@, emph@),
    {
        Env { name: name.to_owned(), emph: emph.to_owned() }
    }

    /// The display name of a configured kind that names none.
    pub fn name_default() -> (r: String)
        ensures
            r@ == name_default_spec(),
    {
        crate::text::string_of(&vec!['E', 'n', 'v', 'i', 'r', 'o', 'n', 'm', 'e', 'n', 't'])
    }

    /// The emphasis of a configured kind that names none: bold.
    pub fn emph_default() -> (r: String)
        ensures
            r@ == emph_default_spec(),
    {
        crate::text::string_of(&vec!['*', '*'])
    }
}

pub open spec fn has_key(v: Seq<EnvEntryView>, k: Seq<char>) -> bool {
    exists|i: int| 0 <= i < v.len() && (#[trigger] v[i]).0 == k
}

/// Where key `k` stands in `v`, or -1.
pub open spec fn key_pos(v: Seq<EnvEntryView>, k: Seq<char>) -> int {
    if has_key(v, k) {
        choose|i: int| 0 <= i < v.len() && (#[trigger] v[i]).0 == k
    } else {
        -1
    }
}

/// No key is configured twice.
pub open spec fn unique_keys(v: Seq<EnvEntryView>) -> bool {
    forall|i: int, j: int| 0 <= i < v.len() && 0 <= j < v.len() && i != j ==> (#[trigger] v[i]).0 != (#[trigger] v[j]).0
}

/// The registry after setting kind `k` to `e`: replaced in place, or added last.
pub open spec fn env_insert(v: Seq<EnvEntryView>, k: Seq<char>, e: EnvView) -> Seq<EnvEntryView> {
    if has_key(v, k) {
        v.update(key_pos(v, k), (k, e.0, e.1))
    } else {
        v.push((k, e.0, e.1))
    }
}

/// The registry without kind `k`.
pub open spec fn env_remove(v: Seq<EnvEntryView>, k: Seq<char>) -> Seq<EnvEntryView> {
    if has_key(v, k) {
        v.remove(key_pos(v, k))
    } else {
        v
    }
}

/// The five built-in kinds.
pub open spec fn default_envs() -> Seq<EnvEntryView> {
    seq![
        (seq!['t', 'h', 'm'], seq!['T', 'h', 'e', 'o', 'r', 'e', 'm'], seq!['*', '*']),
        (seq!['l', 'e', 'm'], seq!['L', 'e', 'm', 'm', 'a'], seq!['*', '*']),
        (seq!['p', 'r', 'o', 'p'], seq!['P', 'r', 'o', 'p', 'o', 's', 'i', 't', 'i', 'o', 'n'], seq!['*', '*']),
        (seq!['d', 'e', 'f'], seq!['D', 'e', 'f', 'i', 'n', 'i', 't', 'i', 'o', 'n'], seq!['*', '*']),
        (seq!['r', 'e', 'm'], seq!['R', 'e', 'm', 'a', 'r', 'k'], seq!['*']),
    ]
}

/// The configured environment kinds, in a fixed order, each key once.
#[derive(Debug)]
pub struct EnvMap {
    entries: Vec<(String, Env)>,
}

pub open spec fn entries_view(v: Seq<(String, Env)>) -> Seq<EnvEntryView> {
    v.map_values(|e: (String, Env)| (e.0@, e.1.name@, e.1.emph@))
}

impl View for EnvMap {
    type V = Seq<EnvEntryView>;

    closed spec fn view(&self) -> Seq<EnvEntryView> {
        entries_view(self.entries@)
    }
}

impl Default for EnvMap {
    fn default() -> (r: EnvMap)
        ensures
            r@ == default_envs(),
    {
        let mut entries: Vec<(String, Env)> = Vec::new();
        entries.push((crate::text::string_of(&vec!['t', 'h', 'm']), Env {
            name: crate::text::string_of(&vec!['T', 'h', 'e', 'o', 'r', 'e', 'm']),
            emph: crate::text::string_of(&vec!['*', '*']),
        }));
        entries.push((crate::text::string_of(&vec!['l', 'e', 'm']), Env {
            name: crate::text::string_of(&vec!['L', 'e', 'm', 'm', 'a']),
            emph: crate::text::string_of(&vec!['*', '*']),
        }));
        entries.push((crate::text::string_of(&vec!['p', 'r', 'o', 'p']), Env {
            name: crate::text::string_of(
                &vec!['P', 'r', 'o', 'p', 'o', 's', 'i', 't', 'i', 'o', 'n'],
            ),
            emph: crate::text::string_of(&vec!['*', '*']),
        }));
        entries.push((crate::text::string_of(&vec!['d', 'e', 'f']), Env {
            name: crate::text::string_of(&vec!['D', 'e', 'f', 'i', 'n', 'i', 't', 'i', 'o', 'n']),
            emph: crate::text::string_of(&vec!['*', '*']),
        }));
        entries.push((crate::text::string_of(&vec!['r', 'e', 'm']), Env {
            name: crate::text::string_of(&vec!['R', 'e', 'm', 'a', 'r', 'k']),
            emph: crate::text::string_of(&vec!['*']),
        }));
        let ghost v = entries_view(entries@);
        assert(v.len() == 5);
        assert(v[0] =~~= default_envs()[0]);
        assert(v[1] =~~= default_envs()[1]);
        assert(v[2] =~~= default_envs()[2]);
        assert(v[3] =~~= default_envs()[3]);
        assert(v[4] =~~= default_envs()[4]);
        assert(v =~~= default_envs());
        assert(unique_keys(v)) by {
            assert(v[0].0 =~= seq!['t', 'h', 'm']);
            assert(v[1].0 =~= seq!['l', 'e', 'm']);
            assert(v[2].0 =~= seq!['p', 'r', 'o', 'p']);
            assert(v[3].0 =~= seq!['d', 'e', 'f']);
            assert(v[4].0 =~= seq!['r', 'e', 'm']);
            assert forall|i: int, j: int| 0 <= i < v.len() && 0 <= j < v.len() && i != j implies (
            #[trigger] v[i]).0 != (#[trigger] v[j]).0 by {
                assert(v[i].0[0] != v[j].0[0] || v[i].0[1] != v[j].0[1]);
            }
        }
        EnvMap { entries }
    }
}

impl EnvMap {
    #[verifier::type_invariant]
    spec fn inv(&self) -> bool {
        unique_keys(entries_view(self.entries@))
    }

    pub fn len(&self) -> (r: usize)
        ensures
            r == self@.len(),
    {
        self.entries.len()
    }

    /// The key and display rules of the kind at `i`.
    pub fn entry(&self, i: usize) -> (r: (&String, &Env))
        requires
            i < self@.len(),
        ensures
            (r.0@, r.1.name@, r.1.emph@) == self@[i as int],
    {
        (&self.entries[i].0, &self.entries[i].1)
    }

    /// The index of kind `key`, if configured.
    pub fn position(&self, key: &String) -> (r: Option<usize>)
        ensures
            r is None <==> !has_key(self@, key@),
            r matches Some(i) ==> i == key_pos(self@, key@) && i < self@.len(),
    {
        proof { use_type_invariant(self); }
        let mut i: usize = 0;
        while i < self.entries.len()
            invariant
                i <= self.entries.len(),
                unique_keys(self@),
                self@.len() == self.entries.len(),
                forall|j: int| 0 <= j < i ==> (#[trigger] self@[j]).0 != key@,
            decreases self.entries.len() - i,
        {
            if self.entries[i].0 == *key {
                assert(self@[i as int].0 == key@);
                assert(has_key(self@, key@));
                let ghost j = key_pos(self@, key@);
                assert(self@[j].0 == key@);
                assert(j == i as int);
                return Some(i);
            }
            i += 1;
        }
        None
    }

    /// The display rules of kind `key`, if configured.
    pub fn get(&self, key: &str) -> (r: Option<&Env>)
        ensures
            r is None <==> !has_key(self@, key@),
            r matches Some(e) ==> has_key(self@, key@) && self@[key_pos(self@, key@)] == (
            key@,
            e.name@,
            e.emph@,
            ),
    {
        let k = key.to_owned();
        match self.position(&k) {
            Some(i) => Some(&self.entries[i].1),
            None => None,
        }
    }

    /// Takes the entries out, leaving an empty registry behind.
    fn take_entries(&mut self) -> (r: Vec<(String, Env)>)
        ensures
            entries_view(r@) == old(self)@,
            unique_keys(entries_view(r@)),
    {
        proof { use_type_invariant(&*self); }
        let mut taken = EnvMap { entries: Vec::new() };
        std::mem::swap(self, &mut taken);
        let EnvMap { entries } = taken;
        entries
    }

    /// Sets the display rules of kind `key`: in place where it is configured, else as a new last kind.
    pub fn insert(&mut self, key: String, env: Env)
        ensures
            final(self)@ == env_insert(old(self)@, key@, env@),
    {
        let ghost k = key@;
        let ghost e = env@;
        let pos = self.position(&key);
        let mut entries = self.take_entries();
        let ghost o = entries_view(entries@);
        match pos {
            Some(i) => {
                entries.set(i, (key, env));
                let ghost v = entries_view(entries@);
                assert(v =~= o.update(i as int, (k, e.0, e.1)));
                assert forall|a: int, b: int|
                    0 <= a < v.len() && 0 <= b < v.len() && a != b implies (
                    #[trigger] v[a]).0 != (#[trigger] v[b]).0 by {
                    if a != i && b != i {
                        assert(o[a] == v[a]);
                        assert(o[b] == v[b]);
                    } else if a == i {
                        assert(o[b] == v[b]);
                    } else {
                        assert(o[a] == v[a]);
                    }
                }
            },
            None => {
                entries.push((key, env));
                let ghost v = entries_view(entries@);
                assert(v =~= o.push((k, e.0, e.1)));
                assert forall|a: int, b: int|
                    0 <= a < v.len() && 0 <= b < v.len() && a != b implies (
                    #[trigger] v[a]).0 != (#[trigger] v[b]).0 by {
                    if a < o.len() && b < o.len() {
                        assert(o[a] == v[a]);
                        assert(o[b] == v[b]);
                    } else if a < o.len() {
                        assert(o[a] == v[a]);
                    } else {
                        assert(o[b] == v[b]);
                    }
                }
            },
        }
        *self = EnvMap { entries };
    }

    /// Removes kind `key`, if configured.
    pub fn remove(&mut self, key: &str)
        ensures
            final(self)@ == env_remove(old(self)@, key@),
    {
        let k = key.to_owned();
        match self.position(&k) {
            Some(i) => {
                let mut entries = self.take_entries();
                let ghost o = entries_view(entries@);
                let _ = entries.remove(i);
                let ghost v = entries_view(entries@);
                assert(v =~= o.remove(i as int));
                assert forall|a: int, b: int|
                    0 <= a < v.len() && 0 <= b < v.len() && a != b implies (
                    #[trigger] v[a]).0 != (#[trigger] v[b]).0 by {
                    let oa = if a < i { a } else { a + 1 };
                    let ob = if b < i { b } else { b + 1 };
                    assert(o[oa] == v[a]);
                    assert(o[ob] == v[b]);
                }
                *self = EnvMap { entries };
            },
            None => {},
        }
    }
}

} // verus!
