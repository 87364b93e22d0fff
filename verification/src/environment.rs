use crate::error::Error;
use vstd::prelude::*;

verus! {

/// A function the host registers in the environment. The evaluator calls
/// it with the evaluated argument values, in order, and passes its result
/// or error through untouched; nothing is assumed about what it returns.
pub trait HostFunction<T>: Sized {
    fn call(&self, args: Vec<T>) -> Result<T, Error>;
}

/// The functions the library itself provides. They are pre-registered at
/// construction under their names and may be overridden by the host.
#[derive(Debug, Clone, Copy, PartialEq, Eq, Structural)]
pub enum Builtin {
    Sum,
}

/// What a name stands for in the environment: a plain value, a function
/// the host registered, or a built-in of the library.
pub enum Binding<T, F> {
    Value(T),
    Function(F),
    Builtin(Builtin),
}

/// The map an entry list stands for: later entries overwrite earlier ones.
pub open spec fn spec_env_map<T, F>(entries: Seq<(String, Binding<T, F>)>) -> Map<
    Seq<char>,
    Binding<T, F>,
>
    decreases entries,
{
    if entries.len() == 0 {
        Map::empty()
    } else {
        spec_env_map(entries.drop_last()).insert(entries.last().0@, entries.last().1)
    }
}

/// The name-to-binding table the evaluator consults. Its mathematical
/// content is a map from names to bindings; binding a name overwrites any
/// earlier entry for it. It is read-only during evaluation.
pub struct Environment<T, F> {
    entries: Vec<(String, Binding<T, F>)>,
}

impl<T, F> View for Environment<T, F> {
    type V = Map<Seq<char>, Binding<T, F>>;

    closed spec fn view(&self) -> Map<Seq<char>, Binding<T, F>> {
        spec_env_map(self.entries@)
    }
}

impl<T, F> Environment<T, F> {
    /// An empty environment.
    pub fn new() -> (r: Self)
        ensures
            r@ == Map::<Seq<char>, Binding<T, F>>::empty(),
    {
        Environment { entries: Vec::new() }
    }

    /// Inserts or overwrites the entry for `name`.
    pub fn bind(&mut self, name: String, binding: Binding<T, F>)
        ensures
            final(self)@ == old(self)@.insert(name@, binding),
    {
        let ghost before = self.entries@;
        let ghost key = name@;
        let ghost value = binding;
        self.entries.push((name, binding));
        proof {
            assert(self.entries@.drop_last() =~= before);
            assert(self.entries@.last() == (self.entries@.last().0, value));
            assert(self.entries@.last().0@ == key);
        }
    }

    /// The current binding of `name`, or absence.
    pub fn lookup(&self, name: &String) -> (r: Option<&Binding<T, F>>)
        ensures
            match r {
                Some(b) => self@.contains_key(name@) && *b == self@[name@],
                None => !self@.contains_key(name@),
            },
    {
        let ghost whole = self.entries@;
        let mut i: usize = self.entries.len();
        proof {
            assert(whole.take(i as int) =~= whole);
        }
        loop
            invariant
                i <= self.entries.len(),
                whole == self.entries@,
                self@ == spec_env_map(self.entries@),
                (spec_env_map(whole).contains_key(name@) <==> spec_env_map(
                    whole.take(i as int),
                ).contains_key(name@)),
                spec_env_map(whole).contains_key(name@) ==> spec_env_map(whole)[name@]
                    == spec_env_map(whole.take(i as int))[name@],
            decreases i,
        {
            if i == 0 {
                proof {
                    assert(whole.take(0) =~= Seq::<(String, Binding<T, F>)>::empty());
                }
                return None;
            }
            i = i - 1;
            let entry = &self.entries[i];
            proof {
                assert(whole.take(i + 1).drop_last() =~= whole.take(i as int));
                assert(whole.take(i + 1).last() == whole[i as int]);
            }
            if entry.0.eq(name) {
                return Some(&entry.1);
            }
        }
    }
}

} // verus!
