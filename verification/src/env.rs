//! Command-line arguments, by option name.

use crate::error::RunError;
use crate::text::{decimal, decimal_string};
use vstd::prelude::*;

verus! {

/// The names of `entries`, in order.
pub open spec fn names_of(entries: Seq<(String, Vec<String>)>) -> Seq<Seq<char>> {
    Seq::new(entries.len(), |i: int| entries[i].0@)
}

/// In names that all differ, a name is found where it stands.
proof fn lemma_found_where_it_stands(names: Seq<Seq<char>>, at: int)
    requires
        names.no_duplicates(),
        0 <= at < names.len(),
    ensures
        names.contains(names[at]),
        names.index_of(names[at]) == at,
{
}

/// The arguments of a command line, by option name: for each name the values
/// that were given for it, in the order given. A name occurs once.
#[derive(Debug)]
pub struct ArgMap {
    entries: Vec<(String, Vec<String>)>,
}

impl View for ArgMap {
    type V = Map<Seq<char>, Seq<Seq<char>>>;

    closed spec fn view(&self) -> Map<Seq<char>, Seq<Seq<char>>> {
        let names = names_of(self.entries@);
        Map::new(
            |name: Seq<char>| names.contains(name),
            |name: Seq<char>| self.entries@[names.index_of(name)].1.deep_view(),
        )
    }
}

impl ArgMap {
    #[verifier::type_invariant]
    spec fn names_differ(self) -> bool {
        names_of(self.entries@).no_duplicates()
    }

    /// A map without names.
    pub fn new() -> (map: ArgMap)
        ensures
            map@ == Map::<Seq<char>, Seq<Seq<char>>>::empty(),
    {
        ArgMap { entries: Vec::new() }
    }

    /// Where `name` stands among the entries, if it does.
    fn position(&self, name: &str) -> (at: Option<usize>)
        ensures
            match at {
                Some(i) => i < self.entries@.len() && names_of(self.entries@)[i as int] == name@,
                None => !names_of(self.entries@).contains(name@),
            },
    {
        let mut i: usize = 0;
        while i < self.entries.len()
            invariant
                i <= self.entries@.len(),
                forall|j: int| 0 <= j < i ==> names_of(self.entries@)[j] != name@,
            decreases self.entries@.len() - i,
        {
            if self.entries[i].0.as_str().eq(name) {
                return Some(i);
            }
            i += 1;
        }
        None
    }

    /// Whether the map has `name`.
    pub fn contains_key(&self, name: &str) -> (found: bool)
        ensures
            found == self@.contains_key(name@),
    {
        self.position(name).is_some()
    }

    /// The values of `name`.
    pub fn get(&self, name: &str) -> (values: Option<&Vec<String>>)
        ensures
            match values {
                Some(values) => self@.contains_key(name@) && values.deep_view() == self@[name@],
                None => !self@.contains_key(name@),
            },
    {
        proof {
            use_type_invariant(self);
        }
        match self.position(name) {
            Some(i) => Some(&self.entries[i].1),
            None => None,
        }
    }

    /// Gives `name` the values `values`, in place of any it had.
    pub fn insert(&mut self, name: String, values: Vec<String>)
        ensures
            final(self)@ == old(self)@.insert(name@, values.deep_view()),
    {
        proof {
            use_type_invariant(&*self);
        }
        let ghost before = names_of(self.entries@);
        let at = self.position(name.as_str());
        let mut entries: Vec<(String, Vec<String>)> = Vec::new();
        core::mem::swap(&mut self.entries, &mut entries);
        let ghost spot: int;
        match at {
            Some(i) => {
                entries[i] = (name, values);
                proof {
                    spot = i as int;
                    assert(names_of(entries@) =~= before);
                }
            },
            None => {
                entries.push((name, values));
                proof {
                    spot = before.len() as int;
                    assert(names_of(entries@) =~= before.push(name@));
                }
            },
        }
        self.entries = entries;
        proof {
            let after = names_of(self.entries@);
            lemma_found_where_it_stands(after, spot);
            assert forall|n: Seq<char>| before.contains(n) implies after.contains(n) by {
                assert(after[before.index_of(n)] == n);
            }
        }
    }

    /// Adds `value` to the values of `name`, behind those it has. A map
    /// without `name` stays as it is.
    pub fn push_value(&mut self, name: &str, value: String)
        ensures
            final(self)@ == if old(self)@.contains_key(name@) {
                old(self)@.insert(name@, old(self)@[name@].push(value@))
            } else {
                old(self)@
            },
    {
        proof {
            use_type_invariant(&*self);
        }
        let ghost before = names_of(self.entries@);
        let ghost held = self.entries@;
        match self.position(name) {
            Some(i) => {
                let mut entries: Vec<(String, Vec<String>)> = Vec::new();
                core::mem::swap(&mut self.entries, &mut entries);
                entries[i].1.push(value);
                proof {
                    assert(names_of(entries@) =~= before);
                    assert(entries@[i as int].1.deep_view() =~= held[i as int].1.deep_view().push(
                        value@,
                    ));
                }
                self.entries = entries;
            },
            None => {},
        }
    }
}

/// What is reported when an argument is asked for that was not given.
pub open spec fn missing_arg_message(key: Seq<char>) -> Seq<char> {
    "Missing argument "@ + key + "."@
}

/// What is reported when an argument has `count` values and one is asked for.
pub open spec fn many_values_message(key: Seq<char>, count: nat) -> Seq<char> {
    "Argument "@ + key + " should have exactly one value, but has "@ + decimal(count) + "."@
}

/// The error for an argument that was not given.
pub fn error_missing_arg(key: &str) -> (error: RunError)
    ensures
        error@ == missing_arg_message(key@),
{
    let mut message = String::from_str("Missing argument ");
    message.append(key);
    message.append(".");
    RunError::new(message)
}

/// The error for an argument with `count` values where one is asked for.
fn error_many_values(key: &str, count: usize) -> (error: RunError)
    ensures
        error@ == many_values_message(key@, count as nat),
{
    let mut message = String::from_str("Argument ");
    message.append(key);
    message.append(" should have exactly one value, but has ");
    message.append(decimal_string(count).as_str());
    message.append(".");
    RunError::new(message)
}

/// The option that `arg` names: what follows two leading dashes, or else
/// what follows one. `None` where `arg` starts with no dash, and so is a
/// value.
pub open spec fn option_name(arg: Seq<char>) -> Option<Seq<char>> {
    if arg.len() >= 2 && arg[0] == '-' && arg[1] == '-' {
        Some(arg.skip(2))
    } else if arg.len() >= 1 && arg[0] == '-' {
        Some(arg.skip(1))
    } else {
        None
    }
}

/// `map` with `key` in it: as it is where it has `key`, and with `key` and no
/// values where it has not.
pub open spec fn ensured(map: Map<Seq<char>, Seq<Seq<char>>>, key: Seq<char>) -> Map<
    Seq<char>,
    Seq<Seq<char>>,
> {
    if map.contains_key(key) {
        map
    } else {
        map.insert(key, Seq::empty())
    }
}

/// What one more word of the command line does to the arguments read so far
/// and to the option that values are currently for: an option becomes the
/// current one, and a value goes to the current one.
pub open spec fn parse_step(
    state: (Map<Seq<char>, Seq<Seq<char>>>, Seq<char>),
    arg: Seq<char>,
) -> (Map<Seq<char>, Seq<Seq<char>>>, Seq<char>) {
    match option_name(arg) {
        Some(key) => (ensured(state.0, key), key),
        None => {
            let map = ensured(state.0, state.1);
            (map.insert(state.1, map[state.1].push(arg)), state.1)
        },
    }
}

/// The arguments read from `args`, and the option that values are for at
/// its end. At the start that option is the one without a name.
pub open spec fn parse_state(args: Seq<Seq<char>>) -> (Map<Seq<char>, Seq<Seq<char>>>, Seq<char>)
    decreases args.len(),
{
    if args.len() == 0 {
        (Map::empty(), Seq::empty())
    } else {
        parse_step(parse_state(args.drop_last()), args.last())
    }
}

/// The arguments that the words `args` of a command line give.
pub open spec fn parsed_args(args: Seq<Seq<char>>) -> Map<Seq<char>, Seq<Seq<char>>> {
    parse_state(args).0
}

/// The option that `arg` names, if it names one.
fn option_name_of(arg: &str) -> (name: Option<String>)
    ensures
        match name {
            Some(name) => option_name(arg@) == Some(name@),
            None => option_name(arg@) is None,
        },
{
    let n = arg.unicode_len();
    if n >= 2 && arg.get_char(0) == '-' && arg.get_char(1) == '-' {
        Some(String::from_str(arg.substring_char(2, n)))
    } else if n >= 1 && arg.get_char(0) == '-' {
        Some(String::from_str(arg.substring_char(1, n)))
    } else {
        None
    }
}

/// The arguments that a program was started with.
#[derive(Debug)]
pub struct Env {
    pub args: ArgMap,
}

impl Env {
    /// Makes sure that `args` has `key`, with no values where it is new.
    pub fn ensure_args_key(args: &mut ArgMap, key: &str)
        ensures
            final(args)@ == ensured(old(args)@, key@),
    {
        if !args.contains_key(key) {
            let values: Vec<String> = Vec::new();
            proof {
                assert(values.deep_view() == Seq::<Seq<char>>::empty());
            }
            args.insert(String::from_str(key), values);
        }
    }

    /// Reads the words of a command line, the program's own name first.
    ///
    /// A word that starts with `--` or `-` names an option. Any other word is
    /// a value of the option named last, and of the option without a name
    /// where none was named yet.
    pub fn new(args: Vec<String>) -> (env: Env)
        ensures
            env.args@ == parsed_args(args.deep_view()),
    {
        let ghost words = args.deep_view();
        let mut map = ArgMap::new();
        let mut key = String::new();
        for arg in it: args
            invariant
                it.seq() == args@,
                words == args.deep_view(),
                (map@, key@) == parse_state(words.take(it.index() as int)),
        {
            proof {
                let read = words.take(it.index() + 1);
                assert(read.drop_last() == words.take(it.index() as int));
            }
            match option_name_of(arg.as_str()) {
                Some(name) => {
                    key = name;
                    Env::ensure_args_key(&mut map, key.as_str());
                },
                None => {
                    Env::ensure_args_key(&mut map, key.as_str());
                    map.push_value(key.as_str(), arg);
                },
            }
        }
        proof {
            assert(words.take(words.len() as int) == words);
        }
        Env { args: map }
    }

    /// The one value of the argument `key`.
    ///
    /// Fails where `key` was not given, where it was given without a value,
    /// and where it has more than one value.
    pub fn get_arg(&self, key: &str) -> (value: Result<&String, RunError>)
        ensures
            match value {
                Ok(value) => {
                    &&& self.args@.contains_key(key@)
                    &&& self.args@[key@].len() == 1
                    &&& value@ == self.args@[key@][0]
                },
                Err(error) => if self.args@.contains_key(key@) && self.args@[key@].len() > 1 {
                    error@ == many_values_message(key@, self.args@[key@].len())
                } else {
                    &&& self.args@.contains_key(key@) ==> self.args@[key@].len() == 0
                    &&& error@ == missing_arg_message(key@)
                },
            },
    {
        match self.args.get(key) {
            None => Err(error_missing_arg(key)),
            Some(values) => {
                if values.len() > 1 {
                    Err(error_many_values(key, values.len()))
                } else if values.len() == 1 {
                    Ok(&values[0])
                } else {
                    Err(error_missing_arg(key))
                }
            },
        }
    }

    /// The one value of the argument `key`, or `None` where `key` was not
    /// given.
    ///
    /// Fails where `key` was given without a value, and where it has more
    /// than one value.
    pub fn get_opt_arg(&self, key: &str) -> (value: Result<Option<&String>, RunError>)
        ensures
            match value {
                Ok(None) => !self.args@.contains_key(key@),
                Ok(Some(value)) => {
                    &&& self.args@.contains_key(key@)
                    &&& self.args@[key@].len() == 1
                    &&& value@ == self.args@[key@][0]
                },
                Err(error) => {
                    &&& self.args@.contains_key(key@)
                    &&& if self.args@[key@].len() > 1 {
                        error@ == many_values_message(key@, self.args@[key@].len())
                    } else {
                        &&& self.args@[key@].len() == 0
                        &&& error@ == missing_arg_message(key@)
                    }
                },
            },
    {
        match self.args.get(key) {
            None => Ok(None),
            Some(values) => {
                if values.len() > 1 {
                    Err(error_many_values(key, values.len()))
                } else if values.len() == 1 {
                    Ok(Some(&values[0]))
                } else {
                    Err(error_missing_arg(key))
                }
            },
        }
    }

    /// All the values of the argument `key`, in the order given.
    ///
    /// Fails where `key` was not given.
    pub fn get_args(&self, key: &str) -> (values: Result<&Vec<String>, RunError>)
        ensures
            match values {
                Ok(values) => self.args@.contains_key(key@) && values.deep_view()
                    == self.args@[key@],
                Err(error) => !self.args@.contains_key(key@) && error@ == missing_arg_message(
                    key@,
                ),
            },
    {
        match self.args.get(key) {
            None => Err(error_missing_arg(key)),
            Some(values) => Ok(values),
        }
    }
}

} // verus!
