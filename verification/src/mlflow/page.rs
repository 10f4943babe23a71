//! Pages of search results.

use vstd::prelude::*;
use vstd::string::*;
use crate::mlflow::error::{ErrorModel, MlflowError, invalid_error};
use crate::text::chars::{chars_of, opt_text};
use crate::text::number::{
    decimal, decimal_text, lemma_decimal, lemma_parse_decimal, parse_unsigned, read_unsigned,
};

verus! {

/// Where a page begins: at the start without a token.
pub open spec fn page_start(token: Option<Seq<char>>) -> Option<nat> {
    match token {
        None => Some(0),
        Some(t) => if t.len() == 0 {
            Some(0)
        } else {
            parse_unsigned(t, usize::MAX as nat)
        },
    }
}

/// How many results a page may hold.
pub open spec fn page_limit(max_results: Option<u32>) -> nat {
    match max_results {
        Some(n) => n as nat,
        None => 1000,
    }
}

/// A page of results, with the token of the next one where there is more.
pub open spec fn page_of<T>(
    items: Seq<T>,
    max_results: Option<u32>,
    token: Option<Seq<char>>,
) -> Result<(Seq<T>, Option<Seq<char>>), ErrorModel> {
    let limit = page_limit(max_results);
    if limit == 0 {
        Err(invalid_error("max_results must be greater than zero"@))
    } else {
        match page_start(token) {
            None => Err(invalid_error("invalid page_token"@)),
            Some(start) => if start > items.len() {
                Err(invalid_error("page_token is past the result set"@))
            } else if start + limit < items.len() {
                Ok(
                    (
                        items.subrange(start as int, (start + limit) as int),
                        Some(decimal(start + limit)),
                    ),
                )
            } else {
                Ok((items.skip(start as int), None))
            },
        }
    }
}

pub open spec fn opt_view(t: Option<&str>) -> Option<Seq<char>> {
    match t {
        Some(t) => Some(t@),
        None => None,
    }
}

/// A page of results over the results themselves.
pub open spec fn page_view<T>(r: Result<(Vec<T>, Option<String>), MlflowError>) -> Result<
    (Seq<T>, Option<Seq<char>>),
    ErrorModel,
> {
    match r {
        Ok((items, next)) => Ok((items@, opt_text(next))),
        Err(e) => Err(e@),
    }
}

/// A page of results, with the token of the next one where there is more.
pub fn paginate<T>(items: Vec<T>, max_results: Option<u32>, page_token: Option<&str>) -> (r: Result<
    (Vec<T>, Option<String>),
    MlflowError,
>)
    ensures
        page_view(r) == page_of(items@, max_results, opt_view(page_token)),
{
    let limit: u32 = match max_results {
        Some(n) => n,
        None => 1000,
    };
    if limit == 0 {
        return Err(MlflowError::invalid("max_results must be greater than zero".to_owned()));
    }
    let start: u64 = match page_token {
        None => 0,
        Some(token) => {
            let t: Vec<char> = chars_of(token);
            if t.len() == 0 {
                0
            } else {
                match read_unsigned(t.as_slice(), usize::MAX as u64) {
                    Some(n) => n,
                    None => {
                        return Err(MlflowError::invalid("invalid page_token".to_owned()));
                    },
                }
            }
        },
    };
    let n: usize = items.len();
    if start > n as u64 {
        return Err(MlflowError::invalid("page_token is past the result set".to_owned()));
    }
    let start: usize = start as usize;
    let mut items: Vec<T> = items;
    let ghost all = items@;
    let mut page: Vec<T> = items.split_off(start);
    assert(page@ =~= all.skip(start as int));
    if n - start > limit as usize {
        page.truncate(limit as usize);
        assert(page@ =~= all.subrange(start as int, start + limit));
        let next: String = decimal_text(start as u128 + limit as u128);
        Ok((page, Some(next)))
    } else {
        Ok((page, None))
    }
}

/// The results on all the pages from a token on, following at most `more` next
/// tokens; `None` where a page is an error or more pages follow.
pub open spec fn all_pages<T>(
    items: Seq<T>,
    max_results: Option<u32>,
    token: Option<Seq<char>>,
    more: nat,
) -> Option<Seq<T>>
    decreases more,
{
    match page_of(items, max_results, token) {
        Err(_) => None,
        Ok((page, next)) => match next {
            None => Some(page),
            Some(t) => if more == 0 {
                None
            } else {
                match all_pages(items, max_results, Some(t), (more - 1) as nat) {
                    Some(rest) => Some(page + rest),
                    None => None,
                }
            },
        },
    }
}

proof fn lemma_pages_from<T>(
    items: Seq<T>,
    max_results: Option<u32>,
    token: Option<Seq<char>>,
    more: nat,
)
    requires
        items.len() <= usize::MAX,
        max_results != Some(0u32),
        page_start(token) is Some,
        page_start(token)->0 <= items.len(),
        more >= items.len() - page_start(token)->0,
    ensures
        all_pages(items, max_results, token, more) == Some(items.skip(page_start(token)->0 as int)),
    decreases more,
{
    let start = page_start(token)->0;
    let end = start + page_limit(max_results);
    if end < items.len() {
        lemma_decimal(end);
        lemma_parse_decimal(end, usize::MAX as nat);
        lemma_pages_from(items, max_results, Some(decimal(end)), (more - 1) as nat);
        assert(items.subrange(start as int, end as int) + items.skip(end as int) =~= items.skip(
            start as int,
        ));
    }
}

/// Following the tokens from the first page on visits every result once, in
/// order: no tail is lost.
pub proof fn law_pages_reach_every_result<T>(items: Seq<T>, max_results: Option<u32>)
    requires
        items.len() <= usize::MAX,
        max_results != Some(0u32),
    ensures
        all_pages(items, max_results, None, items.len()) == Some(items),
{
    lemma_pages_from(items, max_results, None, items.len());
    assert(items.skip(0) =~= items);
}

} // verus!
