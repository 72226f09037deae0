//! The command cache: a mapping from command names to executable paths,
//! filled from outside and consulted when a call resolves to no lambda.

use vstd::prelude::*;

use crate::lexer::str_eq;

verus! {

/// Holds the commands that are currently available. It can be thought
/// of as a cache of what would be available through the search path in
/// a conventional shell.
#[derive(Debug)]
pub struct Commands {
    /// name and path of each known command; a later entry with the
    /// same name wins
    pub entries: Vec<(String, String)>,
}

/// The mapping an entry list denotes: each entry inserted in order, so
/// a later entry with the same name overwrites an earlier one.
pub open spec fn cmd_map(s: Seq<(String, String)>) -> Map<Seq<char>, Seq<char>>
    decreases s.len(),
{
    if s.len() == 0 {
        Map::empty()
    } else {
        cmd_map(s.drop_last()).insert(s.last().0@, s.last().1@)
    }
}

/// A name behind the last entry carrying it maps to that entry's path.
pub proof fn lemma_cmd_map_at(s: Seq<(String, String)>, j: int, name: Seq<char>)
    requires
        0 <= j < s.len(),
        s[j].0@ == name,
        forall|k: int| j < k < s.len() ==> (#[trigger] s[k].0@) != name,
    ensures
        cmd_map(s).contains_key(name),
        cmd_map(s)[name] == s[j].1@,
    decreases s.len(),
{
    if j < s.len() - 1 {
        assert(s.drop_last()[j] == s[j]);
        assert forall|k: int| j < k < s.drop_last().len() implies (#[trigger] s.drop_last()[k].0@)
            != name by {
            assert(s.drop_last()[k] == s[k]);
        }
        lemma_cmd_map_at(s.drop_last(), j, name);
    }
}

/// A name no entry carries maps to nothing.
pub proof fn lemma_cmd_map_none(s: Seq<(String, String)>, name: Seq<char>)
    requires
        forall|k: int| 0 <= k < s.len() ==> (#[trigger] s[k].0@) != name,
    ensures
        !cmd_map(s).contains_key(name),
    decreases s.len(),
{
    if s.len() > 0 {
        assert forall|k: int| 0 <= k < s.drop_last().len() implies (#[trigger] s.drop_last()[k].0@)
            != name by {
            assert(s.drop_last()[k] == s[k]);
        }
        lemma_cmd_map_none(s.drop_last(), name);
    }
}

impl Commands {
    /// The mapping the cache holds.
    pub open spec fn view_map(self) -> Map<Seq<char>, Seq<char>> {
        cmd_map(self.entries@)
    }

    /// An empty cache.
    pub fn new() -> (r: Commands)
        ensures
            r.view_map() == Map::<Seq<char>, Seq<char>>::empty(),
    {
        let r = Commands { entries: Vec::new() };
        proof {
            assert(r.entries@.len() == 0);
        }
        r
    }

    /// Replaces everything stored before with the given name-to-path
    /// entries; a later entry with the same name wins.
    pub fn rescan(&mut self, entries: Vec<(String, String)>)
        ensures
            final(self).view_map() == cmd_map(entries@),
    {
        self.entries = entries;
    }

    /// Obtains the path to a command based on its name, if it exists.
    pub fn get(&self, command_name: &str) -> (r: Option<String>)
        ensures
            match r {
                Some(p) => self.view_map().contains_key(command_name@) && self.view_map()[
                    command_name@
                ] == p@,
                None => !self.view_map().contains_key(command_name@),
            },
    {
        let n = self.entries.len();
        let mut j: usize = n;
        while j > 0
            invariant
                n == self.entries@.len(),
                j <= n,
                forall|k: int| j <= k < n ==> (#[trigger] self.entries@[k].0@) != command_name@,
            decreases j,
        {
            j = j - 1;
            if str_eq(self.entries[j].0.as_str(), command_name) {
                proof {
                    lemma_cmd_map_at(self.entries@, j as int, command_name@);
                }
                return Some(self.entries[j].1.clone());
            }
        }
        proof {
            let s = self.entries@;
            assert forall|k: int| 0 <= k < s.len() implies (#[trigger] s[k].0@)
                != command_name@ by {
                assert(self.entries@[k].0@ != command_name@);
            }
            lemma_cmd_map_none(s, command_name@);
        }
        None
    }
}

impl Default for Commands {
    /// An empty cache.
    fn default() -> (r: Commands)
        ensures
            r.view_map() == Map::<Seq<char>, Seq<char>>::empty(),
    {
        Commands::new()
    }
}

} // verus!
