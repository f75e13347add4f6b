use crate::value::{Value, ValueView};
use vstd::prelude::*;

verus! {

/// A variable with its value.
#[derive(Debug)]
pub struct Binding {
    pub name: String,
    pub value: Value,
}

/// The map from names to values that a list of bindings stands for: a later
/// binding of a name replaces an earlier one.
pub open spec fn bound(bindings: Seq<Binding>) -> Map<Seq<char>, ValueView>
    decreases bindings.len(),
{
    if bindings.len() == 0 {
        Map::empty()
    } else {
        bound(bindings.drop_last()).insert(bindings.last().name@, bindings.last().value@)
    }
}

/// The index of the last binding of `name` among the first `limit` of
/// `bindings`, or -1 where none of them binds it.
pub open spec fn last_binding(bindings: Seq<Binding>, name: Seq<char>, limit: int) -> int
    decreases limit,
{
    if limit <= 0 {
        -1
    } else if bindings[limit - 1].name@ == name {
        limit - 1
    } else {
        last_binding(bindings, name, limit - 1)
    }
}

/// The last binding of a name is the one that counts.
pub proof fn lemma_last_binding(bindings: Seq<Binding>, name: Seq<char>)
    ensures
        -1 <= last_binding(bindings, name, bindings.len() as int) < bindings.len(),
        last_binding(bindings, name, bindings.len() as int) < 0 <==> !bound(bindings).contains_key(
            name,
        ),
        last_binding(bindings, name, bindings.len() as int) >= 0 ==> bound(bindings)[name]
            == bindings[last_binding(bindings, name, bindings.len() as int)].value@
            && bindings[last_binding(bindings, name, bindings.len() as int)].name@ == name,
    decreases bindings.len(),
{
    if bindings.len() > 0 {
        let earlier = bindings.drop_last();
        lemma_last_binding(earlier, name);
        lemma_last_binding_prefix(bindings, earlier, name, earlier.len() as int);
    }
}

/// The search looks only at the bindings below its limit.
pub proof fn lemma_last_binding_prefix(
    bindings: Seq<Binding>,
    earlier: Seq<Binding>,
    name: Seq<char>,
    limit: int,
)
    requires
        0 <= limit <= earlier.len() <= bindings.len(),
        forall|i: int| 0 <= i < limit ==> bindings[i] == earlier[i],
    ensures
        last_binding(bindings, name, limit) == last_binding(earlier, name, limit),
    decreases limit,
{
    if limit > 0 && bindings[limit - 1].name@ != name {
        lemma_last_binding_prefix(bindings, earlier, name, limit - 1);
    }
}

/// Putting a new value in the place of the last binding of a name binds
/// the name to that value and changes nothing else.
pub proof fn lemma_rebind(bindings: Seq<Binding>, at: int, binding: Binding)
    requires
        0 <= at < bindings.len(),
        at == last_binding(bindings, binding.name@, bindings.len() as int),
    ensures
        bound(bindings.update(at, binding)) == bound(bindings).insert(
            binding.name@,
            binding.value@,
        ),
    decreases bindings.len(),
{
    let updated = bindings.update(at, binding);
    lemma_last_binding(bindings, binding.name@);
    if at == bindings.len() - 1 {
        assert(updated.drop_last() =~= bindings.drop_last());
        assert(bound(updated) =~= bound(bindings).insert(binding.name@, binding.value@));
    } else {
        let earlier = bindings.drop_last();
        lemma_last_binding_prefix(bindings, earlier, binding.name@, earlier.len() as int);
        lemma_rebind(earlier, at, binding);
        assert(updated.drop_last() =~= earlier.update(at, binding));
        assert(updated.last() == bindings.last());
        assert(bound(updated) =~= bound(bindings).insert(binding.name@, binding.value@));
    }
}

/// The variables of one call, or of the top level: a map from names to
/// values. They are held as a list of bindings, of which the last of a name
/// is the one that counts; `bound` is the map that the list stands for, and
/// every reading and writing is proved against it.
#[derive(Debug)]
pub struct Variables {
    bindings: Vec<Binding>,
}

impl View for Variables {
    type V = Map<Seq<char>, ValueView>;

    closed spec fn view(&self) -> Map<Seq<char>, ValueView> {
        bound(self.bindings@)
    }
}

impl Variables {
    /// No variables.
    pub fn new() -> (variables: Variables)
        ensures
            variables@ == Map::<Seq<char>, ValueView>::empty(),
    {
        Variables { bindings: Vec::new() }
    }

    /// Where the binding of `name` that counts stands, if there is one.
    fn find(&self, name: &String) -> (at: Option<usize>)
        ensures
            match at {
                Some(index) => index < self.bindings@.len() && index == last_binding(
                    self.bindings@,
                    name@,
                    self.bindings@.len() as int,
                ),
                None => last_binding(self.bindings@, name@, self.bindings@.len() as int) < 0,
            },
    {
        let mut index = self.bindings.len();
        while index > 0
            invariant
                index <= self.bindings.len(),
                last_binding(self.bindings@, name@, self.bindings@.len() as int) == last_binding(
                    self.bindings@,
                    name@,
                    index as int,
                ),
            decreases index,
        {
            index -= 1;
            if self.bindings[index].name == *name {
                return Some(index);
            }
        }
        None
    }

    /// The value of the variable `name`, if it has one.
    pub fn get(&self, name: &String) -> (value: Option<&Value>)
        ensures
            match value {
                Some(found) => self@.contains_key(name@) && found@ == self@[name@],
                None => !self@.contains_key(name@),
            },
    {
        proof {
            lemma_last_binding(self.bindings@, name@);
        }
        match self.find(name) {
            Some(index) => Some(&self.bindings[index].value),
            None => None,
        }
    }

    /// Gives the variable `name` the value `value`, whether it had one or
    /// not.
    pub fn insert(&mut self, name: String, value: Value)
        ensures
            final(self)@ == old(self)@.insert(name@, value@),
    {
        let binding = Binding { name, value };
        match self.find(&binding.name) {
            Some(index) => {
                proof {
                    lemma_rebind(self.bindings@, index as int, binding);
                }
                self.bindings.set(index, binding);
            },
            None => {
                let ghost before = self.bindings@;
                self.bindings.push(binding);
                assert(self.bindings@.drop_last() =~= before);
            },
        }
    }
}

} // verus!
