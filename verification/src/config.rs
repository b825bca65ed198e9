//! The search configuration: roots, optional name patterns, optional
//! entry-type filter, and its validated construction.

use crate::pattern::NamePattern;
use crate::pattern::pattern_accepted;
use vstd::prelude::*;

verus! {

/// The kind of a filesystem entry. A closed set: every entry the engine
/// classifies is a directory, a regular file, or a symbolic link.
#[derive(Clone, Copy, Debug, PartialEq, Eq, Structural)]
pub enum EntryType {
    Dir,
    File,
    Link,
}

/// Construction of a configuration failed: a name pattern did not compile.
#[derive(Debug)]
pub struct ConfigError {
    /// The pattern text that was rejected.
    pub pattern: String,
}

/// The mathematical content of a [`Config`]: root paths, pattern texts, and
/// entry kinds, all as sequences of plain values.
pub struct ConfigView {
    pub dirs: Seq<Seq<char>>,
    pub names: Option<Seq<Seq<char>>>,
    pub entry_types: Option<Seq<EntryType>>,
}

impl ConfigView {
    /// Structural invariant: at least one root, and a present name filter
    /// holds at least one pattern.
    pub open spec fn wf(&self) -> bool {
        &&& self.dirs.len() > 0
        &&& (self.names matches Some(pats) ==> pats.len() > 0)
    }
}

/// The pattern texts of a sequence of compiled patterns, in order.
pub open spec fn pattern_views(pats: Seq<NamePattern>) -> Seq<Seq<char>> {
    pats.map_values(|p: NamePattern| p@)
}

/// The character sequences of a sequence of strings, in order.
pub open spec fn string_views(strs: Seq<String>) -> Seq<Seq<char>> {
    strs.map_values(|s: String| s@)
}

/// Whether every pattern text in `names` compiles.
pub open spec fn all_accepted(names: Seq<Seq<char>>) -> bool {
    forall|i: int| 0 <= i < names.len() ==> pattern_accepted(#[trigger] names[i])
}

/// Whether `j` is the index of the first pattern text in `names` that does
/// not compile.
pub open spec fn first_rejected_at(names: Seq<Seq<char>>, j: int) -> bool {
    &&& 0 <= j < names.len()
    &&& !pattern_accepted(names[j])
    &&& forall|k: int| 0 <= k < j ==> pattern_accepted(#[trigger] names[k])
}

/// The entry kind named by a raw type token: `"d"`, `"f"` and `"l"` name
/// the three kinds; anything else names none.
pub open spec fn token_kind(tok: Seq<char>) -> Option<EntryType> {
    if tok.len() == 1 {
        if tok[0] == 'd' {
            Some(EntryType::Dir)
        } else if tok[0] == 'f' {
            Some(EntryType::File)
        } else if tok[0] == 'l' {
            Some(EntryType::Link)
        } else {
            None
        }
    } else {
        None
    }
}

/// The entry kinds named by a sequence of raw type tokens, in order, with
/// unrecognized tokens dropped.
pub open spec fn mapped_kinds(toks: Seq<Seq<char>>) -> Seq<EntryType>
    decreases toks.len(),
{
    if toks.len() == 0 {
        Seq::empty()
    } else {
        let rest = mapped_kinds(toks.drop_last());
        match token_kind(toks.last()) {
            Some(kind) => rest.push(kind),
            None => rest,
        }
    }
}

/// An immutable search configuration. `names` absent means "match any
/// name"; `entry_types` absent means "match any kind".
#[derive(Debug)]
pub struct Config {
    pub dirs: Vec<String>,
    pub names: Option<Vec<NamePattern>>,
    pub entry_types: Option<Vec<EntryType>>,
}

impl View for Config {
    type V = ConfigView;

    open spec fn view(&self) -> ConfigView {
        ConfigView {
            dirs: string_views(self.dirs@),
            names: match self.names {
                None => None,
                Some(pats) => Some(pattern_views(pats@)),
            },
            entry_types: match self.entry_types {
                None => None,
                Some(kinds) => Some(kinds@),
            },
        }
    }
}

/// Builds a configuration from raw root paths, raw name-pattern strings and
/// raw type tokens.
///
/// Every pattern must compile; the first one that does not aborts the whole
/// build and is named in the error. An empty pattern list and an empty token
/// list each leave the corresponding filter absent. Unrecognized type tokens
/// are dropped. No roots means the current directory, `"."`.
pub fn build(dirs: Vec<String>, names: Vec<String>, types: Vec<String>) -> (r: Result<
    Config,
    ConfigError,
>)
    ensures
        r is Ok <==> all_accepted(string_views(names@)),
        r matches Err(e) ==> exists|j: int|
            #[trigger] first_rejected_at(string_views(names@), j)
                && e.pattern@ == string_views(names@)[j],
        r matches Ok(c) ==> c@.dirs == if dirs@.len() == 0 {
            seq![seq!['.']]
        } else {
            string_views(dirs@)
        },
        r matches Ok(c) ==> c@.names == if names@.len() == 0 {
            None::<Seq<Seq<char>>>
        } else {
            Some(string_views(names@))
        },
        r matches Ok(c) ==> c@.entry_types == if types@.len() == 0 {
            None::<Seq<EntryType>>
        } else {
            Some(mapped_kinds(string_views(types@)))
        },
        r matches Ok(c) ==> c@.wf(),
{
    let mut compiled: Vec<NamePattern> = Vec::new();
    let mut i: usize = 0;
    while i < names.len()
        invariant
            i <= names.len(),
            compiled@.len() == i,
            forall|k: int| 0 <= k < i ==> pattern_accepted(#[trigger] string_views(names@)[k]),
            forall|k: int| 0 <= k < i ==> #[trigger] compiled@[k]@ == string_views(names@)[k],
        decreases names.len() - i,
    {
        match NamePattern::compile(&names[i]) {
            Some(pat) => {
                compiled.push(pat);
            },
            None => {
                proof {
                    assert(first_rejected_at(string_views(names@), i as int));
                }
                return Err(ConfigError { pattern: names[i].clone() });
            },
        }
        i = i + 1;
    }

    let name_filters = if compiled.len() == 0 {
        None
    } else {
        proof {
            assert(pattern_views(compiled@) =~= string_views(names@));
        }
        Some(compiled)
    };

    let type_filters = if types.len() == 0 {
        None
    } else {
        let mut kinds: Vec<EntryType> = Vec::new();
        let mut t: usize = 0;
        while t < types.len()
            invariant
                t <= types.len(),
                kinds@ == mapped_kinds(string_views(types@).take(t as int)),
            decreases types.len() - t,
        {
            let tok = types[t].as_str();
            if tok.unicode_len() == 1 {
                let c = tok.get_char(0);
                if c == 'd' {
                    kinds.push(EntryType::Dir);
                } else if c == 'f' {
                    kinds.push(EntryType::File);
                } else if c == 'l' {
                    kinds.push(EntryType::Link);
                }
            }
            proof {
                let sv = string_views(types@);
                assert(sv.take(t as int + 1).drop_last() =~= sv.take(t as int));
                assert(sv.take(t as int + 1).last() == sv[t as int]);
            }
            t = t + 1;
        }
        proof {
            let sv = string_views(types@);
            assert(sv.take(sv.len() as int) =~= sv);
        }
        Some(kinds)
    };

    let roots = if dirs.len() == 0 {
        let mut v: Vec<String> = Vec::new();
        v.push(".".to_owned());
        proof {
            reveal_strlit(".");
            assert("."@ =~= seq!['.']);
            assert(string_views(v@) =~= seq![seq!['.']]);
        }
        v
    } else {
        dirs
    };

    Ok(Config { dirs: roots, names: name_filters, entry_types: type_filters })
}

} // verus!
