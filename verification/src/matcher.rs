//! Resolving a request to the mock that serves it.

use vstd::prelude::*;

use crate::handler::{match_wildcard, wildcard_params};
use crate::logger::MatchError;
use crate::mock_engine::{copy_string, request_failure, MockBlock};
use crate::request::ResolvableRequest;
use crate::strings::{chars_of, string_of};
use crate::strmap::{assoc_index, StrMap};
use crate::text::{
    join, join_exec, lacks, lemma_join_lacks, lemma_nonempty_lacks,
    lemma_split_char_absent, lemma_split_rec_char_pieces, lemma_split_rec_keeps_lacks,
    lemma_split_rec_len, nonempty, nonempty_exec, split, split_exec,
};

verus! {

broadcast use vstd::string::group_string_axioms;

/// A route in canonical form: the part before the first `?`, split on `/`,
/// empty segments dropped, joined with `::`.
pub open spec fn normalized(route: Seq<char>) -> Seq<char> {
    join(nonempty(split(split(route, seq!['?'])[0], seq!['/'])), seq![':', ':'])
}

/// Normalizes a route into canonical form.
///
/// - strip query string
/// - trim leading/trailing slashes
/// - split path segments
/// - join with `::`
///
/// Examples: "/users/42" -> "users::42", "users/42/" -> "users::42",
/// "/users?x=1" -> "users".
pub fn normalize_route(route: &str) -> (r: String)
    ensures
        r@ == normalized(route@),
{
    let cs = chars_of(route);
    let q = vec!['?'];
    assert(q@ =~= seq!['?']);
    let parts = split_exec(cs.as_slice(), q.as_slice());
    let slash = vec!['/'];
    assert(slash@ =~= seq!['/']);
    let segments = split_exec(parts[0].as_slice(), slash.as_slice());
    let kept = nonempty_exec(&segments);
    let sep = vec![':', ':'];
    assert(sep@ =~= seq![':', ':']);
    let joined = join_exec(&kept, sep.as_slice());
    string_of(joined.as_slice())
}

/// How a request was resolved.
#[allow(inconsistent_fields)]
pub enum Resolution<'a> {
    /// A mock applies and the request meets its constraints.
    Matched { mock: &'a MockBlock, diagnostics: Option<MatchError> },
    /// A mock applies but the request fails one of its constraints.
    Mismatch { diagnostics: MatchError },
    /// No mock applies.
    NotFound,
}

/// Why a request could not be resolved.
#[derive(Debug)]
pub enum ResolveError {
    /// Two mock keys with placeholders both fit the route: `key` was met
    /// after `other`.
    AmbiguousRoute { route: String, key: String, other: String },
}

impl ResolveError {
    /// A description of the error.
    pub fn message(&self) -> (m: String)
        ensures
            match self {
                ResolveError::AmbiguousRoute { route, key, other } => m@ == "Multiple mocks match route '"@
                    + route@ + "': '"@ + key@ + "' and '"@ + other@ + "'"@,
            },
    {
        match self {
            ResolveError::AmbiguousRoute { route, key, other } => {
                let mut s = String::new();
                s.append("Multiple mocks match route '");
                s.append(route.as_str());
                s.append("': '");
                s.append(key.as_str());
                s.append("' and '");
                s.append(other.as_str());
                s.append("'");
                s
            },
        }
    }
}

/// The indices, in order, of the first `n` entries whose keys the route
/// fits with placeholders.
pub open spec fn wildcard_hits(route: Seq<char>, mocks: Seq<(Seq<char>, MockBlock)>, n: int) -> Seq<
    int,
>
    decreases n,
{
    if n <= 0 {
        Seq::empty()
    } else if wildcard_params(route, mocks[n - 1].0) is Some {
        wildcard_hits(route, mocks, n - 1).push(n - 1)
    } else {
        wildcard_hits(route, mocks, n - 1)
    }
}

/// The hits among the first `n` entries are the first hits among the first `k`.
pub proof fn lemma_hits_prefix(route: Seq<char>, mocks: Seq<(Seq<char>, MockBlock)>, n: int, k: int)
    requires
        0 <= n <= k,
    ensures
        wildcard_hits(route, mocks, n).len() <= wildcard_hits(route, mocks, k).len(),
        wildcard_hits(route, mocks, n) == wildcard_hits(route, mocks, k).subrange(
            0,
            wildcard_hits(route, mocks, n).len() as int,
        ),
    decreases k - n,
{
    if n < k {
        lemma_hits_prefix(route, mocks, n, k - 1);
        let a = wildcard_hits(route, mocks, n);
        let b = wildcard_hits(route, mocks, k - 1);
        let c = wildcard_hits(route, mocks, k);
        if wildcard_params(route, mocks[k - 1].0) is Some {
            assert(c == b.push(k - 1));
            assert(c.subrange(0, a.len() as int) =~= b.subrange(0, a.len() as int));
        }
    } else {
        assert(wildcard_hits(route, mocks, k).subrange(0, wildcard_hits(route, mocks, k).len() as int)
            =~= wildcard_hits(route, mocks, k));
    }
}

/// `res` is how `req` resolves against `mock`: matched when it meets the
/// mock's constraints, a mismatch with the first failed one otherwise.
pub open spec fn resolved_to<R: ResolvableRequest>(res: Resolution, mock: MockBlock, req: &R) -> bool {
    match request_failure(mock.matcher, req) {
        None => res matches Resolution::Matched { mock: m, diagnostics: None } && *m == mock,
        Some(e) => res matches Resolution::Mismatch { diagnostics: d } && d@ == e,
    }
}

/// Resolves requests against a table of mocks.
pub trait Resolver {
    fn resolve<'a, R: ResolvableRequest>(&self, request: &R, mocks: &'a StrMap<MockBlock>) -> Result<
        Resolution<'a>,
        ResolveError,
    >;
}

/// The resolver for HTTP requests.
pub struct HttpResolver;

impl Resolver for HttpResolver {
    /// The mock whose key is the normalized route applies; failing that, the
    /// one mock whose key the route fits with placeholders. Two such keys
    /// are an error.
    fn resolve<'a, R: ResolvableRequest>(&self, request: &R, mocks: &'a StrMap<MockBlock>) -> (r:
        Result<Resolution<'a>, ResolveError>)
        ensures
            ({
                let route = normalized(request.route_spec());
                let exact = assoc_index(mocks@, route);
                let hits = wildcard_hits(route, mocks@, mocks@.len() as int);
                if exact >= 0 {
                    r matches Ok(res) && resolved_to(res, mocks@[exact].1, request)
                } else if hits.len() >= 2 {
                    r matches Err(ResolveError::AmbiguousRoute { route: rt, key, other }) && rt@
                        == route && key@ == mocks@[hits[1]].0 && other@ == mocks@[hits[0]].0
                } else if hits.len() == 1 {
                    r matches Ok(res) && resolved_to(res, mocks@[hits[0]].1, request)
                } else {
                    r matches Ok(Resolution::NotFound)
                }
            }),
    {
        let route = normalize_route(request.route());
        if let Some(mock) = mocks.get(route.as_str()) {
            proof {
                crate::strmap::lemma_assoc_index(mocks@, route@);
            }
            return match mock.matcher.matches(request) {
                Ok(()) => Ok(Resolution::Matched { mock, diagnostics: None }),
                Err(e) => Ok(Resolution::Mismatch { diagnostics: e }),
            };
        }
        let mut candidate: Option<usize> = None;
        let mut i: usize = 0;
        while i < mocks.len()
            invariant
                i <= mocks@.len(),
                route@ == normalized(request.route_spec()),
                assoc_index(mocks@, route@) < 0,
                wildcard_hits(route@, mocks@, i as int).len() <= 1,
                candidate is None <==> wildcard_hits(route@, mocks@, i as int).len() == 0,
                candidate matches Some(c) ==> wildcard_hits(route@, mocks@, i as int)[0] == c && c
                    < mocks@.len(),
            decreases mocks@.len() - i,
        {
            let key = mocks.key_at(i);
            if match_wildcard(route.as_str(), key.as_str()).is_some() {
                if let Some(c) = candidate {
                    let ghost h = wildcard_hits(route@, mocks@, i + 1);
                    assert(h == wildcard_hits(route@, mocks@, i as int).push(i as int));
                    proof {
                        lemma_hits_prefix(route@, mocks@, i + 1, mocks@.len() as int);
                        let all = wildcard_hits(route@, mocks@, mocks@.len() as int);
                        assert(h.len() == 2);
                        assert(h[0] == c && h[1] == i);
                        assert(all.subrange(0, 2)[0] == all[0]);
                        assert(all.subrange(0, 2)[1] == all[1]);
                        assert(all[0] == c && all[1] == i);
                    }
                    let other = mocks.key_at(c);
                    return Err(
                        ResolveError::AmbiguousRoute {
                            route: copy_string(&route),
                            key: copy_string(key),
                            other: copy_string(other),
                        },
                    );
                }
                candidate = Some(i);
            }
            i += 1;
        }
        proof {
            lemma_hits_prefix(route@, mocks@, i as int, mocks@.len() as int);
        }
        match candidate {
            Some(c) => {
                let mock = mocks.value_at(c);
                match mock.matcher.matches(request) {
                    Ok(()) => Ok(Resolution::Matched { mock, diagnostics: None }),
                    Err(e) => Ok(Resolution::Mismatch { diagnostics: e }),
                }
            },
            None => Ok(Resolution::NotFound),
        }
    }
}

/// A normalized route has no `/` and no `?`.
pub proof fn law_normalized_has_no_separators(route: Seq<char>)
    ensures
        lacks(normalized(route), '/'),
        lacks(normalized(route), '?'),
{
    let prefix = split(route, seq!['?'])[0];
    lemma_split_rec_len(route, seq!['?'], 0, 0);
    lemma_split_rec_char_pieces(route, '?', 0, 0);
    assert(lacks(prefix, '?'));
    let segments = split(prefix, seq!['/']);
    lemma_split_rec_char_pieces(prefix, '/', 0, 0);
    lemma_split_rec_keeps_lacks(prefix, seq!['/'], 0, 0, '?');
    lemma_nonempty_lacks(segments, '/');
    lemma_nonempty_lacks(segments, '?');
    let sep = seq![':', ':'];
    assert(lacks(sep, '/'));
    assert(lacks(sep, '?'));
    lemma_join_lacks(nonempty(segments), sep, '/');
    lemma_join_lacks(nonempty(segments), sep, '?');
}

/// Normalizing a normalized route changes nothing.
pub proof fn law_normalize_idempotent(route: Seq<char>)
    ensures
        normalized(normalized(route)) == normalized(route),
{
    let n = normalized(route);
    law_normalized_has_no_separators(route);
    lemma_split_char_absent(n, '?');
    assert(split(n, seq!['?'])[0] == n);
    lemma_split_char_absent(n, '/');
    let sep = seq![':', ':'];
    if n.len() > 0 {
        assert(nonempty(seq![n]) =~= seq![n]) by {
            assert(seq![n].drop_last() =~= Seq::<Seq<char>>::empty());
            assert(nonempty(Seq::<Seq<char>>::empty()) == Seq::<Seq<char>>::empty());
            assert(seq![n].last() == n);
        }
        assert(join(seq![n], sep) == n);
    } else {
        assert(nonempty(seq![n]) =~= Seq::<Seq<char>>::empty()) by {
            assert(seq![n].drop_last() =~= Seq::<Seq<char>>::empty());
            assert(nonempty(Seq::<Seq<char>>::empty()) == Seq::<Seq<char>>::empty());
            assert(seq![n].last() == n);
        }
        assert(n =~= Seq::<char>::empty());
    }
}

/// A request for `/dir/name` (with or without a query string) reaches the
/// mock that a file in `dir` names `name`: its route, normalized, is the
/// mock's key `dir::name`.
pub proof fn law_route_reaches_mock_key(dir: Seq<char>, name: Seq<char>, query: Seq<char>)
    requires
        dir.len() > 0,
        name.len() > 0,
        crate::text::lacks(dir, '/'),
        crate::text::lacks(dir, '?'),
        crate::text::lacks(name, '/'),
        crate::text::lacks(name, '?'),
    ensures
        normalized(seq!['/'] + dir + seq!['/'] + name) == crate::cli::mock_key(dir, name),
        normalized(seq!['/'] + dir + seq!['/'] + name + seq!['?'] + query) == crate::cli::mock_key(
            dir,
            name,
        ),
{
    reveal_strlit("::");
    let path = seq!['/'] + dir + seq!['/'] + name;
    assert(crate::text::lacks(path, '?')) by {
        assert forall|j: int| 0 <= j < path.len() implies path[j] != '?' by {
            if 1 <= j < 1 + dir.len() {
                assert(path[j] == dir[j - 1]);
            } else if j > 1 + dir.len() {
                assert(path[j] == name[j - 2 - dir.len()]);
            }
        }
    }
    crate::text::lemma_split_char_absent(path, '?');
    crate::text::lemma_split_first_piece(path, '?', query);
    // "/dir/name" splits on '/' into "", dir, name.
    crate::text::lemma_split_char_absent(name, '/');
    crate::text::lemma_split_first_piece(dir, '/', name);
    assert(crate::text::lacks(Seq::<char>::empty(), '/'));
    crate::text::lemma_split_first_piece(Seq::empty(), '/', dir + seq!['/'] + name);
    assert(Seq::<char>::empty() + seq!['/'] + (dir + seq!['/'] + name) =~= path);
    let parts = seq![Seq::<char>::empty(), dir, name];
    assert(split(path, seq!['/']) =~= parts);
    let p2 = seq![Seq::<char>::empty(), dir];
    let p1 = seq![Seq::<char>::empty()];
    assert(parts.drop_last() =~= p2);
    assert(p2.drop_last() =~= p1);
    assert(p1.drop_last() =~= Seq::<Seq<char>>::empty());
    assert(p1.last().len() == 0);
    assert(nonempty(Seq::<Seq<char>>::empty()) =~= Seq::<Seq<char>>::empty());
    assert(nonempty(p1) =~= Seq::<Seq<char>>::empty());
    assert(nonempty(p2) =~= seq![dir]);
    assert(nonempty(parts) =~= seq![dir, name]);
    assert(seq![dir, name].drop_last() =~= seq![dir]);
    assert(join(seq![dir], seq![':', ':']) == dir);
    assert(seq![dir, name].last() == name);
    assert(join(seq![dir, name], seq![':', ':']) =~= dir + seq![':', ':'] + name);
    assert(path + seq!['?'] + query =~= (path + seq!['?']) + query);
}

} // verus!
