use vstd::prelude::*;
use crate::value::{Type, Value, ValueV};

verus! {

/// What a variable holds: its declared type and its value.
pub struct Data {
    pub type_meta: Type,
    pub value_meta: Value,
}

impl View for Data {
    type V = (Type, ValueV);

    open spec fn view(&self) -> (Type, ValueV) {
        (self.type_meta, self.value_meta@)
    }
}

/// A variable and what it holds.
pub struct Binding {
    pub name: String,
    pub data: Data,
}

/// The map that a list of bindings denotes, later bindings over earlier ones.
pub open spec fn map_of(s: Seq<(Seq<char>, (Type, ValueV))>) -> Map<Seq<char>, (Type, ValueV)>
    decreases s.len(),
{
    if s.len() == 0 {
        Map::empty()
    } else {
        map_of(s.drop_last()).insert(s.last().0, s.last().1)
    }
}

/// Whether no name is bound twice.
pub open spec fn names_unique(s: Seq<(Seq<char>, (Type, ValueV))>) -> bool {
    forall|i: int, j: int| 0 <= i < j < s.len() ==> #[trigger] s[i].0 != #[trigger] s[j].0
}

/// With each name bound once, a name maps to what its binding holds.
proof fn lemma_map_of_index(s: Seq<(Seq<char>, (Type, ValueV))>, i: int)
    requires
        names_unique(s),
        0 <= i < s.len(),
    ensures
        map_of(s).contains_key(s[i].0),
        map_of(s)[s[i].0] == s[i].1,
    decreases s.len(),
{
    if i < s.len() - 1 {
        lemma_map_of_index(s.drop_last(), i);
        assert(s.drop_last()[i] == s[i]);
        assert(s[i].0 != s[s.len() - 1].0);
    }
}

/// A name that no binding holds is not in the map.
proof fn lemma_map_of_absent(s: Seq<(Seq<char>, (Type, ValueV))>, k: Seq<char>)
    requires
        forall|i: int| 0 <= i < s.len() ==> #[trigger] s[i].0 != k,
    ensures
        !map_of(s).contains_key(k),
    decreases s.len(),
{
    if s.len() > 0 {
        assert forall|i: int| 0 <= i < s.drop_last().len() implies #[trigger] s.drop_last()[i].0
            != k by {
            assert(s.drop_last()[i] == s[i]);
        }
        lemma_map_of_absent(s.drop_last(), k);
        assert(s[s.len() - 1].0 != k);
    }
}

/// Replacing what a binding holds updates the map at its name.
proof fn lemma_map_of_update(
    s: Seq<(Seq<char>, (Type, ValueV))>,
    i: int,
    v: (Type, ValueV),
)
    requires
        names_unique(s),
        0 <= i < s.len(),
    ensures
        map_of(s.update(i, (s[i].0, v))) == map_of(s).insert(s[i].0, v),
    decreases s.len(),
{
    let t = s.update(i, (s[i].0, v));
    if i == s.len() - 1 {
        assert(t.drop_last() =~= s.drop_last());
        assert(map_of(t) =~= map_of(s).insert(s[i].0, v));
    } else {
        assert(t.drop_last() =~= s.drop_last().update(i, (s[i].0, v)));
        assert(s.drop_last()[i] == s[i]);
        assert(names_unique(s.drop_last())) by {
            assert forall|a: int, b: int| 0 <= a < b < s.drop_last().len() implies
                #[trigger] s.drop_last()[a].0 != #[trigger] s.drop_last()[b].0 by {
                assert(s.drop_last()[a] == s[a] && s.drop_last()[b] == s[b]);
            }
        }
        lemma_map_of_update(s.drop_last(), i, v);
        assert(s[i].0 != s[s.len() - 1].0);
        assert(map_of(t) =~= map_of(s).insert(s[i].0, v));
    }
}

/// The variables of a session, each name bound once.
pub struct State {
    pub vars: Vec<Binding>,
}

impl State {
    pub open spec fn entries(&self) -> Seq<(Seq<char>, (Type, ValueV))> {
        self.vars@.map_values(|b: Binding| (b.name@, b.data@))
    }

    /// Each name is bound at most once.
    pub open spec fn wf(&self) -> bool {
        names_unique(self.entries())
    }

    /// The variables, by name.
    pub open spec fn view(&self) -> Map<Seq<char>, (Type, ValueV)> {
        map_of(self.entries())
    }

    /// No variable.
    pub fn new() -> (r: State)
        ensures
            r.wf(),
            r.vars@.len() == 0,
            r.view() == Map::<Seq<char>, (Type, ValueV)>::empty(),
    {
        let r = State { vars: Vec::new() };
        assert(r.entries() =~= Seq::empty());
        r
    }

    /// The position of the binding of `name`, if there is one.
    fn position(&self, name: &String) -> (r: Option<usize>)
        requires
            self.wf(),
        ensures
            match r {
                Some(i) => i < self.vars@.len() && self.vars@[i as int].name@ == name@,
                None => forall|i: int| 0 <= i < self.vars@.len() ==> #[trigger] self.entries()[i].0
                    != name@,
            },
    {
        let mut i: usize = 0;
        while i < self.vars.len()
            invariant
                i <= self.vars@.len(),
                forall|k: int| 0 <= k < i ==> #[trigger] self.entries()[k].0 != name@,
            decreases self.vars@.len() - i,
        {
            if self.vars[i].name == *name {
                return Some(i);
            }
            i = i + 1;
        }
        None
    }

    /// The value bound to `name`, if any.
    pub fn get(&self, name: &String) -> (r: Option<Value>)
        requires
            self.wf(),
        ensures
            r is Some <==> self.view().contains_key(name@),
            r matches Some(v) ==> v@ == self.view()[name@].1,
    {
        match self.position(name) {
            Some(i) => {
                proof {
                    lemma_map_of_index(self.entries(), i as int);
                }
                Some(self.vars[i].data.value_meta.duplicate())
            },
            None => {
                proof {
                    lemma_map_of_absent(self.entries(), name@);
                }
                None
            },
        }
    }

    /// Binds `name` to `data`, replacing what it held before.
    pub fn insert(&mut self, name: String, data: Data)
        requires
            old(self).wf(),
        ensures
            final(self).wf(),
            final(self).view() == old(self).view().insert(name@, data@),
    {
        let ghost e = self.entries();
        match self.position(&name) {
            Some(i) => {
                let ghost d = data@;
                self.vars.set(i, Binding { name, data });
                proof {
                    assert(self.entries() =~= e.update(i as int, (e[i as int].0, d)));
                    lemma_map_of_update(e, i as int, d);
                }
            },
            None => {
                let ghost k = name@;
                let ghost d = data@;
                self.vars.push(Binding { name, data });
                proof {
                    assert(self.entries() =~= e.push((k, d)));
                    assert(self.entries().drop_last() =~= e);
                }
            },
        }
    }
}

} // verus!
