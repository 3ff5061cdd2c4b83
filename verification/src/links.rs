use crate::numerals::{decimal, decimal_text};
use crate::params::{ParamsView, SearchParams};
use crate::views::{group_texts, lemma_take_next, opt_text, pair_texts, texts};
use url::Url;
use vstd::prelude::*;
use vstd::utf8::encode_utf8;

verus! {

broadcast use group_texts;

/// The view of a text or a message.
pub open spec fn text_view(result: Result<String, String>) -> Result<Seq<char>, Seq<char>> {
    match result {
        Ok(text) => Ok(text@),
        Err(message) => Err(message@),
    }
}

/// The address that a reference leads to from a base, or the message on why there is none.
pub uninterp spec fn resolved(base: Seq<char>, href: Seq<char>) -> Result<Seq<char>, Seq<char>>;

/// `url::Url::parse` of the base and `url::Url::join` with the reference, named by `resolved`.
#[verifier::external_body]
pub(crate) fn join_url(base: &str, href: &str) -> (result: Result<String, String>)
    ensures
        text_view(result) == resolved(base@, href@),
{
    Url::parse(base).and_then(|url| url.join(href)).map(String::from).map_err(|e| e.to_string())
}

/// An address with pairs appended to its query, or the message on why it is none.
pub uninterp spec fn with_query(
    address: Seq<char>,
    pairs: Seq<(Seq<char>, Seq<char>)>,
) -> Result<Seq<char>, Seq<char>>;

/// How many bytes the pairs of a query take at most: a byte is written with three at most, and each
/// pair has two separators.
pub open spec fn query_bytes(pairs: Seq<(Seq<char>, Seq<char>)>) -> nat
    decreases pairs.len(),
{
    if pairs.len() == 0 {
        0
    } else {
        query_bytes(pairs.drop_last()) + 3 * encode_utf8(pairs.last().0).len() + 3 * encode_utf8(
            pairs.last().1,
        ).len() + 2
    }
}

/// How much an address may grow as it is read.
pub const ADDRESS_GROWTH: u64 = 64;

/// Whether an address and the pairs of its query are short enough to be put together: thirty-two
/// bits count the bytes, and the address may grow as it is read.
pub open spec fn query_fits(address: Seq<char>, pairs: Seq<(Seq<char>, Seq<char>)>) -> bool {
    ADDRESS_GROWTH * (encode_utf8(address).len() + 1) + query_bytes(pairs) <= u32::MAX
}

/// Fewer pairs take no more bytes.
proof fn lemma_query_grows(pairs: Seq<(Seq<char>, Seq<char>)>, i: int)
    requires
        0 <= i <= pairs.len(),
    ensures
        query_bytes(pairs.take(i)) <= query_bytes(pairs),
    decreases pairs.len(),
{
    if i == pairs.len() {
        assert(pairs.take(i) =~= pairs);
    } else {
        lemma_query_grows(pairs.drop_last(), i);
        assert(pairs.drop_last().take(i) =~= pairs.take(i));
    }
}

/// Whether an address and the pairs of its query are short enough to be put together.
pub fn can_append_query(address: &str, pairs: &Vec<(String, String)>) -> (result: bool)
    ensures
        result == query_fits(address@, pair_texts(pairs@)),
{
    let ghost all = pair_texts(pairs@);
    let most: u128 = u32::MAX as u128;
    let mut total: u128 = ADDRESS_GROWTH as u128 * (address.as_bytes().len() as u128 + 1);
    if total > most {
        return false;
    }
    let ghost start = total;
    for i in 0..pairs.len()
        invariant
            all == pair_texts(pairs@),
            most == u32::MAX,
            start == ADDRESS_GROWTH * (encode_utf8(address@).len() + 1),
            total == start + query_bytes(all.take(i as int)),
            total <= most,
    {
        proof {
            lemma_take_next(all, i as int);
            assert(all.take(i + 1).drop_last() == all.take(i as int));
            lemma_query_grows(all, i + 1);
        }
        let name = pairs[i].0.as_str();
        let value = pairs[i].1.as_str();
        total = total + 3 * name.as_bytes().len() as u128 + 3 * value.as_bytes().len() as u128 + 2;
        if total > most {
            return false;
        }
    }
    assert(all.take(all.len() as int) == all);
    true
}

/// `url::Url::parse`, and `extend_pairs` on the address's `query_pairs_mut`, named by `with_query`.
/// The call panics where thirty-two bits do not count the bytes of the address with its query.
#[verifier::external_body]
pub(crate) fn append_query(address: &str, pairs: &Vec<(String, String)>) -> (result: Result<
    String,
    String,
>)
    requires
        query_fits(address@, pair_texts(pairs@)),
    ensures
        text_view(result) == with_query(address@, pair_texts(pairs@)),
{
    let mut url = Url::parse(address).map_err(|e| e.to_string())?;
    url.query_pairs_mut().extend_pairs(pairs);
    Ok(url.into())
}

/// Where a reference leads to from a base; the reference itself where it leads nowhere.
pub open spec fn absolute(base: Seq<char>, href: Seq<char>) -> Seq<char> {
    match resolved(base, href) {
        Ok(address) => address,
        Err(_) => href,
    }
}

/// Where a reference leads to from a base; the reference itself where it leads nowhere.
pub fn absolutize(base_url: &str, href: &str) -> (result: String)
    ensures
        result@ == absolute(base_url@, href@),
{
    match join_url(base_url, href) {
        Ok(address) => address,
        Err(_) => href.to_owned(),
    }
}

/// A name with each of some values.
pub open spec fn named_values(name: Seq<char>, values: Seq<Seq<char>>) -> Seq<
    (Seq<char>, Seq<char>),
> {
    values.map_values(|value: Seq<char>| (name, value))
}

/// A name with a value, where there is one.
pub open spec fn named_value(name: Seq<char>, value: Option<Seq<char>>) -> Seq<
    (Seq<char>, Seq<char>),
> {
    match value {
        Some(text) => seq![(name, text)],
        None => Seq::empty(),
    }
}

/// The query of a page of a search stream.
pub open spec fn search_pairs(p: ParamsView, page: u64) -> Seq<(Seq<char>, Seq<char>)> {
    seq![("q"@, p.query)] + named_values("c[]"@, p.catalogs) + named_values("access[]"@, p.access)
        + named_value("publishyear_prev"@, p.publishyear_prev) + named_value(
        "publishyear_next"@,
        p.publishyear_next,
    ) + named_value("by"@, p.sort_by) + named_value("order"@, p.order) + p.extra + named_value(
        "PAGEN_1"@,
        if page > 1 {
            Some(decimal(page as nat))
        } else {
            None
        },
    )
}

fn push_values(pairs: &mut Vec<(String, String)>, name: &str, values: &Vec<String>)
    ensures
        pair_texts(final(pairs)@) == pair_texts(old(pairs)@) + named_values(name@, texts(values@)),
{
    let ghost before = pair_texts(pairs@);
    let ghost all = named_values(name@, texts(values@));
    assert(before + all.take(0) =~= before);
    for i in 0..values.len()
        invariant
            all == named_values(name@, texts(values@)),
            pair_texts(pairs@) == before + all.take(i as int),
    {
        pairs.push((name.to_owned(), values[i].clone()));
        proof {
            lemma_take_next(all, i as int);
            assert((before + all.take(i as int)).push(all[i as int]) =~= before + all.take(i + 1));
        }
    }
    assert(all.take(all.len() as int) == all);
}

fn push_value(pairs: &mut Vec<(String, String)>, name: &str, value: &Option<String>)
    ensures
        pair_texts(final(pairs)@) == pair_texts(old(pairs)@) + named_value(name@, opt_text(*value)),
{
    match value {
        Some(text) => {
            pairs.push((name.to_owned(), text.clone()));
        },
        None => {},
    }
    assert(pair_texts(pairs@) =~= pair_texts(old(pairs)@) + named_value(name@, opt_text(*value)));
}

/// The query of a page of a search stream.
pub fn search_query(params: &SearchParams, page: u64) -> (result: Vec<(String, String)>)
    ensures
        pair_texts(result@) == search_pairs(params@, page),
{
    let mut pairs: Vec<(String, String)> = Vec::new();
    pairs.push(("q".to_owned(), params.query.clone()));
    assert(pair_texts(pairs@) =~= seq![("q"@, params@.query)]);
    push_values(&mut pairs, "c[]", &params.catalogs);
    push_values(&mut pairs, "access[]", &params.access);
    push_value(&mut pairs, "publishyear_prev", &params.publishyear_prev);
    push_value(&mut pairs, "publishyear_next", &params.publishyear_next);
    push_value(&mut pairs, "by", &params.sort_by);
    push_value(&mut pairs, "order", &params.order);
    let ghost before = pair_texts(pairs@);
    let ghost all = params@.extra;
    assert(before + all.take(0) =~= before);
    for i in 0..params.extra.len()
        invariant
            all == params@.extra,
            pair_texts(pairs@) == before + all.take(i as int),
    {
        pairs.push((params.extra[i].0.clone(), params.extra[i].1.clone()));
        proof {
            lemma_take_next(all, i as int);
            assert((before + all.take(i as int)).push(all[i as int]) =~= before + all.take(i + 1));
        }
    }
    assert(all.take(all.len() as int) == all);
    let number: Option<String> = if page > 1 {
        Some(decimal_text(page))
    } else {
        None
    };
    push_value(&mut pairs, "PAGEN_1", &number);
    pairs
}

/// The address of a page of a search stream, or the message on why there is none.
pub open spec fn search_address(base: Seq<char>, p: ParamsView, page: u64) -> Result<
    Seq<char>,
    Seq<char>,
> {
    match resolved(base, "/search/"@) {
        Ok(address) => with_query(address, search_pairs(p, page)),
        Err(message) => Err(message),
    }
}

/// Whether the address of a page of a search stream is short enough to be put together.
pub open spec fn search_fits(base: Seq<char>, p: ParamsView, page: u64) -> bool {
    resolved(base, "/search/"@) matches Ok(address) ==> query_fits(address, search_pairs(p, page))
}

/// The address of a page of a search stream.
pub fn search_url(base_url: &str, params: &SearchParams, page: u64) -> (result: Result<
    String,
    String,
>)
    requires
        search_fits(base_url@, params@, page),
    ensures
        text_view(result) == search_address(base_url@, params@, page),
{
    let address = match join_url(base_url, "/search/") {
        Ok(address) => address,
        Err(message) => return Err(message),
    };
    let pairs = search_query(params, page);
    append_query(&address, &pairs)
}

/// The address of a page of a search stream, where it is short enough to be put together.
pub fn fitting_search_url(base_url: &str, params: &SearchParams, page: u64) -> (result: Option<
    Result<String, String>,
>)
    ensures
        match result {
            Some(url) => search_fits(base_url@, params@, page) && text_view(url) == search_address(
                base_url@,
                params@,
                page,
            ),
            None => !search_fits(base_url@, params@, page),
        },
{
    match join_url(base_url, "/search/") {
        Ok(address) => {
            let pairs = search_query(params, page);
            if !can_append_query(&address, &pairs) {
                return None;
            }
        },
        Err(_) => {},
    }
    Some(search_url(base_url, params, page))
}

/// Where the page of the advanced search is.
pub fn advanced_search_url(base_url: &str) -> (result: Result<String, String>)
    ensures
        text_view(result) == resolved(base_url@, "/search/extended/"@),
{
    join_url(base_url, "/search/extended/")
}

/// The query of a search page holds what is searched for, every catalogue, access and extra
/// parameter, and the years and the sort where they are set; and the number of the page from the
/// second on.
pub proof fn law_search_query(p: ParamsView, page: u64)
    ensures
        search_pairs(p, page)[0] == ("q"@, p.query),
        forall|i: int|
            0 <= i < p.catalogs.len() ==> search_pairs(p, page).contains(
                ("c[]"@, #[trigger] p.catalogs[i]),
            ),
        forall|i: int|
            0 <= i < p.access.len() ==> search_pairs(p, page).contains(
                ("access[]"@, #[trigger] p.access[i]),
            ),
        p.publishyear_prev matches Some(year) ==> search_pairs(p, page).contains(
            ("publishyear_prev"@, year),
        ),
        p.publishyear_next matches Some(year) ==> search_pairs(p, page).contains(
            ("publishyear_next"@, year),
        ),
        p.sort_by matches Some(field) ==> search_pairs(p, page).contains(("by"@, field)),
        p.order matches Some(order) ==> search_pairs(p, page).contains(("order"@, order)),
        forall|i: int|
            0 <= i < p.extra.len() ==> search_pairs(p, page).contains(#[trigger] p.extra[i]),
        page > 1 ==> search_pairs(p, page).last() == ("PAGEN_1"@, decimal(page as nat)),
        search_pairs(p, 1) == search_pairs(p, 0),
        page > 1 ==> search_pairs(p, page).drop_last() == search_pairs(p, 1),
        search_pairs(p, 1).len() == 1 + p.catalogs.len() + p.access.len() + p.extra.len() + (
        if p.publishyear_prev is Some {
            1int
        } else {
            0
        }) + (if p.publishyear_next is Some {
            1int
        } else {
            0
        }) + (if p.sort_by is Some {
            1int
        } else {
            0
        }) + (if p.order is Some {
            1int
        } else {
            0
        }),
{
    let s0 = seq![("q"@, p.query)];
    let s1 = named_values("c[]"@, p.catalogs);
    let s2 = named_values("access[]"@, p.access);
    let s3 = named_value("publishyear_prev"@, p.publishyear_prev);
    let s4 = named_value("publishyear_next"@, p.publishyear_next);
    let s5 = named_value("by"@, p.sort_by);
    let s6 = named_value("order"@, p.order);
    let s8 = named_value(
        "PAGEN_1"@,
        if page > 1 {
            Some(decimal(page as nat))
        } else {
            None
        },
    );
    let all = search_pairs(p, page);
    assert(all == s0 + s1 + s2 + s3 + s4 + s5 + s6 + p.extra + s8);
    assert(all[0] == s0[0]);
    assert forall|i: int| 0 <= i < p.catalogs.len() implies all.contains(
        ("c[]"@, #[trigger] p.catalogs[i]),
    ) by {
        assert(s1[i] == ("c[]"@, p.catalogs[i]));
        assert(all[1 + i] == s1[i]);
    }
    let n2 = 1 + s1.len();
    assert forall|i: int| 0 <= i < p.access.len() implies all.contains(
        ("access[]"@, #[trigger] p.access[i]),
    ) by {
        assert(s2[i] == ("access[]"@, p.access[i]));
        assert(all[n2 + i] == s2[i]);
    }
    let n3 = n2 + s2.len();
    if s3.len() > 0 {
        assert(all[n3 as int] == s3[0]);
    }
    let n4 = n3 + s3.len();
    if s4.len() > 0 {
        assert(all[n4 as int] == s4[0]);
    }
    let n5 = n4 + s4.len();
    if s5.len() > 0 {
        assert(all[n5 as int] == s5[0]);
    }
    let n6 = n5 + s5.len();
    if s6.len() > 0 {
        assert(all[n6 as int] == s6[0]);
    }
    let n7 = n6 + s6.len();
    assert forall|i: int| 0 <= i < p.extra.len() implies all.contains(#[trigger] p.extra[i]) by {
        assert(all[n7 + i] == p.extra[i]);
    }
    let first = search_pairs(p, 1);
    assert(first =~= s0 + s1 + s2 + s3 + s4 + s5 + s6 + p.extra);
    if page > 1 {
        assert(all.drop_last() =~= first);
    }
}

/// A reference is made absolute where it leads somewhere, and otherwise stays as it is.
pub proof fn law_absolute(base: Seq<char>, href: Seq<char>)
    ensures
        resolved(base, href) matches Ok(address) ==> absolute(base, href) == address,
        resolved(base, href) is Err ==> absolute(base, href) == href,
{
}

/// The pages of a search stream are asked for at `/search/` below the base.
pub proof fn law_search_address(base: Seq<char>, p: ParamsView, page: u64)
    ensures
        resolved(base, "/search/"@) matches Ok(address) ==> search_address(base, p, page)
            == with_query(address, search_pairs(p, page)),
        resolved(base, "/search/"@) matches Err(message) ==> search_address(base, p, page) == Err::<
            Seq<char>,
            Seq<char>,
        >(message),
{
}

} // verus!
