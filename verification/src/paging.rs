//! Paginated fetch: pages are followed by their `next` cursor until none is
//! left, and their items are gathered into one sequence in order.

use crate::models::opt_slice;
use crate::text::opt_text;
use vstd::prelude::*;
use vstd::string::*;

verus! {

/// One page of a paginated answer: its items, if it has any, and the address
/// of the page that follows, if one does.
#[derive(Debug)]
pub struct Page<T> {
    pub data: Option<Vec<T>>,
    pub next: Option<String>,
}

/// The items of a page; none where the page has no item list.
pub open spec fn spec_page_items<T>(data: Option<Vec<T>>) -> Seq<T> {
    match data {
        Some(items) => items@,
        None => Seq::empty(),
    }
}

/// A paginated fetch under way: what was gathered so far, and the address to
/// fetch next, if any.
#[derive(Debug)]
pub struct PagedFetch<T> {
    results: Vec<T>,
    next_url: Option<String>,
}

/// The items of a run of pages, in order.
pub open spec fn spec_gather<T>(pages: Seq<Seq<T>>) -> Seq<T>
    decreases pages.len(),
{
    if pages.len() == 0 {
        Seq::empty()
    } else {
        spec_gather(pages.drop_last()) + pages.last()
    }
}

impl<T> PagedFetch<T> {
    /// The items gathered so far.
    pub closed spec fn results(&self) -> Seq<T> {
        self.results@
    }

    /// The address to fetch next; nothing when the fetch is complete.
    pub closed spec fn pending(&self) -> Option<Seq<char>> {
        opt_text(self.next_url)
    }

    /// A fetch that starts at `base_url` with nothing gathered.
    pub fn start(base_url: String) -> (f: Self)
        ensures
            f.results() == Seq::<T>::empty(),
            f.pending() == Some(base_url@),
    {
        PagedFetch { results: Vec::new(), next_url: Some(base_url) }
    }

    /// The address to fetch next; nothing when the fetch is complete.
    pub fn next_url(&self) -> (r: Option<&str>)
        ensures
            opt_slice(r) == self.pending(),
    {
        match &self.next_url {
            Some(url) => Some(url.as_str()),
            None => None,
        }
    }

    /// Takes in the page fetched from the pending address: its items follow
    /// those gathered so far, and its `next` cursor becomes the pending
    /// address.
    pub fn absorb(&mut self, page: Page<T>)
        ensures
            final(self).results() == old(self).results() + spec_page_items(page.data),
            final(self).pending() == opt_text(page.next),
    {
        let Page { data, next } = page;
        match data {
            Some(mut items) => {
                self.results.append(&mut items);
            },
            None => {
                assert(self.results@ =~= self.results@ + Seq::<T>::empty());
            },
        }
        self.next_url = next;
    }

    /// Ends the fetch and hands out what was gathered.
    pub fn finish(self) -> (r: Vec<T>)
        ensures
            r@ == self.results(),
    {
        self.results
    }
}

/// Gathering is concatenation: one more page adds its items at the end, so
/// the pages' items come out in the order in which the pages were absorbed.
pub proof fn law_gather_in_order<T>(pages: Seq<Seq<T>>, page: Seq<T>)
    ensures
        spec_gather(pages.push(page)) == spec_gather(pages) + page,
        spec_gather(pages).len() <= spec_gather(pages.push(page)).len(),
{
    assert(pages.push(page).drop_last() =~= pages);
}

/// `arl={arl}; sid={sid}; refresh-token={refresh_token};`
pub open spec fn spec_session_cookie(arl: Seq<char>, sid: Seq<char>, refresh_token: Seq<char>)
    -> Seq<char> {
    seq!['a', 'r', 'l', '='] + arl + seq![';', ' ', 's', 'i', 'd', '='] + sid + seq![
        ';',
        ' ',
        'r',
        'e',
        'f',
        'r',
        'e',
        's',
        'h',
        '-',
        't',
        'o',
        'k',
        'e',
        'n',
        '=',
    ] + refresh_token + seq![';']
}

/// The cookie header that carries the three session values.
pub fn session_cookie(arl: &str, sid: &str, refresh_token: &str) -> (r: String)
    ensures
        r@ == spec_session_cookie(arl@, sid@, refresh_token@),
{
    proof {
        reveal_strlit("arl=");
        reveal_strlit("; sid=");
        reveal_strlit("; refresh-token=");
        reveal_strlit(";");
        assert("arl="@ =~= seq!['a', 'r', 'l', '=']);
        assert("; sid="@ =~= seq![';', ' ', 's', 'i', 'd', '=']);
        assert("; refresh-token="@ =~= seq![
            ';',
            ' ',
            'r',
            'e',
            'f',
            'r',
            'e',
            's',
            'h',
            '-',
            't',
            'o',
            'k',
            'e',
            'n',
            '=',
        ]);
        assert(";"@ =~= seq![';']);
    }
    let mut r = "arl=".to_owned();
    r.append(arl);
    r.append("; sid=");
    r.append(sid);
    r.append("; refresh-token=");
    r.append(refresh_token);
    r.append(";");
    r
}

} // verus!
