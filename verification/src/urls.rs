//! URL-list management: add, remove, filter and look up entries of an
//! in-memory URL list. Reading and writing the list file is the caller's
//! concern.

use vstd::prelude::*;
use vstd::string::StringSliceAdditionalSpecFns;
use vstd::utf8::encode_utf8;

use crate::errors::{Error, UrlError};
use crate::strutil::{contains_sub, spec_contains};

verus! {

/// The entry holds the query as a substring (of its UTF-8 bytes).
pub open spec fn spec_matches(u: Seq<char>, q: Seq<u8>) -> bool {
    spec_contains(encode_utf8(u), q)
}

/// The predicate selecting the entries that match a query.
pub open spec fn match_pred(q: Seq<u8>) -> spec_fn(Seq<char>) -> bool {
    |u: Seq<char>| spec_matches(u, q)
}

/// The predicate selecting the entries that do not match a query.
pub open spec fn miss_pred(q: Seq<u8>) -> spec_fn(Seq<char>) -> bool {
    |u: Seq<char>| !spec_matches(u, q)
}

/// One unfolding step of `Seq::filter`, whose recursive definition is
/// otherwise hidden behind fuel.
pub proof fn lemma_filter_take_step<A>(s: Seq<A>, pred: spec_fn(A) -> bool)
    requires
        s.len() > 0,
    ensures
        s.filter(pred) == if pred(s.last()) {
            s.drop_last().filter(pred).push(s.last())
        } else {
            s.drop_last().filter(pred)
        },
{
    reveal_with_fuel(Seq::filter, 2);
}

/// Filtering the empty sequence yields the empty sequence.
pub proof fn lemma_filter_take_empty<A>(s: Seq<A>, pred: spec_fn(A) -> bool)
    requires
        s.len() == 0,
    ensures
        s.filter(pred) =~= Seq::<A>::empty(),
{
    reveal_with_fuel(Seq::filter, 1);
}

/// Does the string hold the query as a substring?
fn matches_query(u: &String, q: &str) -> (r: bool)
    ensures
        r == spec_matches(u@, q.spec_bytes()),
{
    contains_sub(u.as_str().as_bytes(), q.as_bytes())
}

/// Append `url` to the list unless some entry already contains it.
pub fn add(urls: &mut Vec<String>, url: &str) -> (r: Result<(), Error>)
    ensures
        r is Ok <==> !(exists|i: int|
            0 <= i < old(urls)@.len() && spec_matches(
                old(urls).deep_view()[i],
                url.spec_bytes(),
            )),
        r is Ok ==> final(urls).deep_view() == old(urls).deep_view().push(url@),
        r matches Err(e) ==> final(urls).deep_view() == old(urls).deep_view() && (e
            matches Error::Url(UrlError::AlreadyInFile(s)) && s@ == url@),
{
    let mut i: usize = 0;
    while i < urls.len()
        invariant
            i <= urls@.len(),
            urls@ == old(urls)@,
            forall|j: int|
                0 <= j < i ==> !spec_matches(#[trigger] urls.deep_view()[j], url.spec_bytes()),
        decreases urls@.len() - i,
    {
        if matches_query(&urls[i], url) {
            proof {
                assert(spec_matches(urls.deep_view()[i as int], url.spec_bytes()));
            }
            return Err(Error::Url(UrlError::AlreadyInFile(url.to_owned())));
        }
        i += 1;
    }
    urls.push(url.to_owned());
    proof {
        assert(final(urls).deep_view() =~= old(urls).deep_view().push(url@));
    }
    Ok(())
}

/// Remove every entry containing `pattern`, returning the removed entries
/// in their original order; when nothing matches, report `NotFound` and
/// leave the list unchanged.
pub fn remove(urls: &mut Vec<String>, pattern: &str) -> (r: Result<Vec<String>, Error>)
    ensures
        final(urls).deep_view() == old(urls).deep_view().filter(miss_pred(pattern.spec_bytes())),
        r matches Ok(removed) ==> removed.deep_view() == old(urls).deep_view().filter(
            match_pred(pattern.spec_bytes()),
        ) && removed@.len() > 0,
        r matches Err(e) ==> old(urls).deep_view().filter(match_pred(pattern.spec_bytes())).len()
            == 0 && (e matches Error::Url(UrlError::NotFound(s)) && s@ == pattern@),
{
    let ghost orig = urls.deep_view();
    let mut kept: Vec<String> = Vec::new();
    let mut removed: Vec<String> = Vec::new();
    let ghost keep_pred = miss_pred(pattern.spec_bytes());
    let ghost take_pred = match_pred(pattern.spec_bytes());
    proof {
        lemma_filter_take_empty(orig.subrange(0, 0), keep_pred);
        lemma_filter_take_empty(orig.subrange(0, 0), take_pred);
    }
    let mut i: usize = 0;
    while i < urls.len()
        invariant
            i <= urls@.len(),
            urls.deep_view() == orig,
            urls@.len() == orig.len(),
            keep_pred == miss_pred(pattern.spec_bytes()),
            take_pred == match_pred(pattern.spec_bytes()),
            kept.deep_view() == orig.subrange(0, i as int).filter(keep_pred),
            removed.deep_view() == orig.subrange(0, i as int).filter(take_pred),
        decreases urls@.len() - i,
    {
        let u = urls[i].clone();
        proof {
            assert(u@ == orig[i as int]);
            assert(orig.subrange(0, i + 1).drop_last() =~= orig.subrange(0, i as int));
            assert(orig.subrange(0, i + 1).last() == orig[i as int]);
            lemma_filter_take_step(orig.subrange(0, i + 1), take_pred);
            lemma_filter_take_step(orig.subrange(0, i + 1), keep_pred);
        }
        if matches_query(&urls[i], pattern) {
            removed.push(u);
            proof {
                assert(removed.deep_view() =~= orig.subrange(0, i + 1).filter(take_pred));
                assert(kept.deep_view() =~= orig.subrange(0, i + 1).filter(keep_pred));
            }
        } else {
            kept.push(u);
            proof {
                assert(kept.deep_view() =~= orig.subrange(0, i + 1).filter(keep_pred));
                assert(removed.deep_view() =~= orig.subrange(0, i + 1).filter(take_pred));
            }
        }
        i += 1;
    }
    proof {
        assert(orig.subrange(0, orig.len() as int) =~= orig);
    }
    *urls = kept;
    if removed.len() == 0 {
        Err(Error::Url(UrlError::NotFound(pattern.to_owned())))
    } else {
        Ok(removed)
    }
}

/// The entries containing the query; with no query, the whole list.
pub fn filter(urls: Vec<String>, query: Option<&str>) -> (r: Vec<String>)
    ensures
        match query {
            Some(q) => r.deep_view() == urls.deep_view().filter(match_pred(q.spec_bytes())),
            None => r.deep_view() == urls.deep_view(),
        },
{
    let q = match query {
        Some(q) => q,
        None => {
            return urls;
        },
    };
    let ghost orig = urls.deep_view();
    let ghost take_pred = match_pred(q.spec_bytes());
    proof {
        lemma_filter_take_empty(orig.subrange(0, 0), take_pred);
    }
    let mut out: Vec<String> = Vec::new();
    let mut i: usize = 0;
    while i < urls.len()
        invariant
            i <= urls@.len(),
            urls.deep_view() == orig,
            urls@.len() == orig.len(),
            take_pred == match_pred(q.spec_bytes()),
            out.deep_view() == orig.subrange(0, i as int).filter(take_pred),
        decreases urls@.len() - i,
    {
        proof {
            assert(orig.subrange(0, i + 1).drop_last() =~= orig.subrange(0, i as int));
            assert(orig.subrange(0, i + 1).last() == orig[i as int]);
            lemma_filter_take_step(orig.subrange(0, i + 1), take_pred);
        }
        if matches_query(&urls[i], q) {
            let u = urls[i].clone();
            proof {
                assert(u@ == orig[i as int]);
            }
            out.push(u);
            proof {
                assert(out.deep_view() =~= orig.subrange(0, i + 1).filter(take_pred));
            }
        } else {
            proof {
                assert(out.deep_view() =~= orig.subrange(0, i + 1).filter(take_pred));
            }
        }
        i += 1;
    }
    proof {
        assert(orig.subrange(0, orig.len() as int) =~= orig);
    }
    out
}

/// The unique entry containing the query: `Ok(None)` when none matches,
/// the entry itself when exactly one does, and `MultipleMatches` when two
/// or more do.
pub fn find_one(urls: Vec<String>, query: &str) -> (r: Result<Option<String>, Error>)
    ensures
        ({
            let ms = urls.deep_view().filter(match_pred(query.spec_bytes()));
            match r {
                Ok(Some(u)) => ms.len() == 1 && u@ == ms[0],
                Ok(None) => ms.len() == 0,
                Err(e) => ms.len() >= 2 && (e matches Error::Url(UrlError::MultipleMatches(s))
                    && s@ == query@),
            }
        }),
{
    let mut ms = filter(urls, Some(query));
    if ms.len() == 0 {
        Ok(None)
    } else if ms.len() == 1 {
        let u = ms.remove(0);
        proof {
            assert(u@ == ms.deep_view().add(seq![u@])[0]);
        }
        Ok(Some(u))
    } else {
        Err(Error::Url(UrlError::MultipleMatches(query.to_owned())))
    }
}

} // verus!
