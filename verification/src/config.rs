//! How the configuration chooses the database directory. The host reads
//! the config file and passes the value it found; paths are plain text
//! here, joined with a slash.

use vstd::prelude::*;

use crate::text::{chars_of, string_from_chars};

verus! {

/// `base` and `rel` joined with a slash.
pub open spec fn spec_join_path(base: Seq<char>, rel: Seq<char>) -> Seq<char> {
    base + seq!['/'] + rel
}

/// The database directory a configured value names: a value starting
/// with `~` is taken relative to the home directory, any other value as
/// it stands, and no value yields nothing.
pub open spec fn spec_database_dir(home: Seq<char>, value: Option<Seq<char>>) -> Option<
    Seq<char>,
> {
    match value {
        Some(v) => {
            if v.len() > 0 && v[0] == '~' {
                Some(spec_join_path(home, v.skip(2)))
            } else {
                Some(v)
            }
        },
        None => None,
    }
}

/// Resolves the configured database directory against the home
/// directory. A `~`-prefixed value must at least hold the `~` and a
/// separator.
pub fn parse_database_dir(home: &str, value: &Option<String>) -> (r: Option<String>)
    requires
        (match *value {
            Some(v) => v@.len() > 0 && v@[0] == '~' ==> v@.len() >= 2,
            None => true,
        }),
    ensures
        match *value {
            Some(v) => (r matches Some(s) && spec_database_dir(home@, Some(v@)) == Some(s@)),
            None => r is None,
        },
{
    match value {
        Some(val) => {
            let cs = chars_of(val.as_str());
            if cs.len() > 0 && cs[0] == '~' {
                let mut joined = chars_of(home);
                joined.push('/');
                let mut k: usize = 2;
                while k < cs.len()
                    invariant
                        2 <= k <= cs@.len(),
                        cs@ == val@,
                        joined@ == home@ + seq!['/'] + cs@.subrange(2, k as int),
                    decreases cs@.len() - k,
                {
                    joined.push(cs[k]);
                    proof {
                        assert(joined@ =~= home@ + seq!['/'] + cs@.subrange(2, k + 1));
                    }
                    k = k + 1;
                }
                proof {
                    assert(joined@ =~= home@ + seq!['/'] + cs@.subrange(2, k as int));
                    assert(cs@.subrange(2, cs@.len() as int) =~= cs@.skip(2));
                    assert(home@ + seq!['/'] =~= home@ + seq!['/']);
                }
                Some(string_from_chars(&joined))
            } else {
                Some(val.clone())
            }
        },
        None => None,
    }
}

/// The directory the database lives in: the configured one when it
/// resolves, else `.ghi` under the home directory.
pub fn resolve_database_dir(home: &str, value: &Option<String>) -> (r: String)
    requires
        (match *value {
            Some(v) => v@.len() > 0 && v@[0] == '~' ==> v@.len() >= 2,
            None => true,
        }),
    ensures
        match *value {
            Some(v) => spec_database_dir(home@, Some(v@)) == Some(r@),
            None => r@ == spec_join_path(home@, ".ghi"@),
        },
{
    match parse_database_dir(home, value) {
        Some(dir) => dir,
        None => {
            let mut joined = chars_of(home);
            joined.push('/');
            let mut rest = chars_of(".ghi");
            joined.append(&mut rest);
            proof {
                assert(joined@ =~= spec_join_path(home@, ".ghi"@));
            }
            string_from_chars(&joined)
        },
    }
}

} // verus!
