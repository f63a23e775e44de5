//! The resolver: turns a user query into the best known directory, or the
//! query itself when nothing better is known.
use vstd::prelude::*;

use crate::JumpError;
use crate::db::Database;
use crate::order::lemma_lex_total;
use crate::order::lemma_lex_trans;
use crate::order::lex_le;
use crate::order::str_le;

verus! {

/// Whether a pattern compiles as a regular expression.
pub uninterp spec fn pattern_valid(pattern: Seq<char>) -> bool;

/// Whether a valid pattern matches somewhere inside a text.
pub uninterp spec fn regex_match(pattern: Seq<char>, text: Seq<char>) -> bool;

/// Relies on `regex::Regex::new`: it returns `Ok` exactly on the patterns
/// that compile, and compiling depends on the pattern alone.
#[verifier::external_body]
fn regex_check(pattern: &str) -> (r: bool)
    ensures
        r == pattern_valid(pattern@),
{
    regex::Regex::new(pattern).is_ok()
}

/// Relies on `regex::Regex::new` and `regex::Regex::is_match`: on a pattern
/// that compiles, whether the pattern matches somewhere inside `text` is a
/// function of the pattern and the text alone.
#[verifier::external_body]
fn regex_matches(pattern: &str, text: &str) -> (r: bool)
    requires
        pattern_valid(pattern@),
    ensures
        r == regex_match(pattern@, text@),
{
    regex::Regex::new(pattern).unwrap().is_match(text)
}

/// The query that short-circuits resolution: the root directory, or a path
/// the caller has probed to exist on the filesystem.
pub open spec fn fast_path(query: Seq<char>, query_exists: bool) -> bool {
    query_exists || query =~= seq!['/']
}

/// The database keys a valid pattern matches.
pub open spec fn matching_keys(pattern: Seq<char>, m: Map<Seq<char>, int>) -> Set<Seq<char>> {
    m.dom().filter(|k: Seq<char>| regex_match(pattern, k))
}

/// Whether `query` is exactly the root directory `"/"`.
fn is_root(query: &str) -> (r: bool)
    ensures
        r == (query@ =~= seq!['/']),
{
    proof {
        reveal_strlit("/");
    }
    if query.unicode_len() == 1 {
        let c = query.get_char(0);
        c == '/'
    } else {
        false
    }
}

/// Resolves `query` against the database.
///
/// `query_exists` is the caller's filesystem probe of `query`. The root query
/// `"/"` and an existing path come back unchanged. Any other query is read
/// as a regular-expression pattern: an invalid one is an error, and of the
/// database keys it matches the lexicographically first is returned, or the
/// query itself when it matches none.
pub fn resolve(query: &str, query_exists: bool, db: &Database) -> (r: Result<String, JumpError>)
    ensures
        fast_path(query@, query_exists) ==> r is Ok && (r->Ok_0)@ == query@,
        !fast_path(query@, query_exists) ==> {
            &&& r is Ok <==> pattern_valid(query@)
            &&& r is Err ==> r->Err_0 == JumpError::InvalidPattern
        },
        (!fast_path(query@, query_exists) && pattern_valid(query@)) ==> {
            let cands = matching_keys(query@, db@);
            if cands.is_empty() {
                (r->Ok_0)@ == query@
            } else {
                cands.contains((r->Ok_0)@) && forall|k: Seq<char>|
                    cands.contains(k) ==> lex_le((r->Ok_0)@, k)
            }
        },
{
    if query_exists || is_root(query) {
        return Ok(query.to_owned());
    }
    if !regex_check(query) {
        return Err(JumpError::InvalidPattern);
    }
    proof {
        crate::db::lemma_map_of_dom(db.entries_seq());
    }
    let n = db.num_entries();
    let mut best: Option<String> = None;
    let mut i: usize = 0;
    while i < n
        invariant
            pattern_valid(query@),
            n == db.entries_seq().len(),
            0 <= i <= n,
            best is None ==> forall|j: int|
                0 <= j < i ==> !regex_match(query@, (#[trigger] db.entries_seq()[j]).0),
            best is Some ==> {
                &&& regex_match(query@, (best->Some_0)@)
                &&& exists|j: int| 0 <= j < i && (#[trigger] db.entries_seq()[j]).0 == (
                best->Some_0)@
                &&& forall|j: int|
                    0 <= j < i && regex_match(query@, (#[trigger] db.entries_seq()[j]).0)
                        ==> lex_le((best->Some_0)@, db.entries_seq()[j].0)
            },
        decreases n - i,
    {
        let k = db.key_at(i);
        if regex_matches(query, k.as_str()) {
            let take = match &best {
                Option::None => true,
                Option::Some(b) => str_le(k.as_str(), b.as_str()),
            };
            if take {
                proof {
                    if best is Some {
                        let bs = (best->Some_0)@;
                        assert forall|j: int|
                            0 <= j < i && regex_match(
                                query@,
                                (#[trigger] db.entries_seq()[j]).0,
                            ) implies lex_le(k@, db.entries_seq()[j].0) by {
                            lemma_lex_trans(k@, bs, db.entries_seq()[j].0);
                        }
                    }
                    lemma_lex_total(k@, k@);
                }
                best = Some(k.clone());
            } else {
                proof {
                    lemma_lex_total(k@, (best->Some_0)@);
                }
            }
        }
        i = i + 1;
    }
    match best {
        Option::Some(b) => {
            proof {
                let cands = matching_keys(query@, db@);
                assert(cands.contains(b@));
                assert forall|k: Seq<char>| cands.contains(k) implies lex_le(b@, k) by {
                    let j = choose|j: int|
                        0 <= j < db.entries_seq().len() && (#[trigger] db.entries_seq()[j]).0 == k;
                    assert(regex_match(query@, db.entries_seq()[j].0));
                }
                assert(!cands.is_empty());
            }
            Ok(b)
        },
        Option::None => {
            proof {
                let cands = matching_keys(query@, db@);
                assert forall|k: Seq<char>| !cands.contains(k) by {
                    if db@.dom().contains(k) {
                        let j = choose|j: int|
                            0 <= j < db.entries_seq().len() && (#[trigger] db.entries_seq()[j]).0
                                == k;
                        assert(!regex_match(query@, db.entries_seq()[j].0));
                    }
                }
                assert(cands.is_empty());
            }
            Ok(query.to_owned())
        },
    }
}

} // verus!
