//! The headers of requests.

use http::{HeaderMap, HeaderName, HeaderValue};
use vstd::prelude::*;

verus! {

#[verifier::external_type_specification]
#[verifier::external_body]
#[verifier::reject_recursive_types(T)]
pub struct ExHeaderMap<T>(HeaderMap<T>);

#[verifier::external_type_specification]
#[verifier::external_body]
pub struct ExHeaderValue(HeaderValue);

#[verifier::external_type_specification]
#[verifier::external_body]
pub struct ExHeaderName(HeaderName);

/// A map of headers takes this many names whatever they hash to: it has at most 2^15 slots, and can
/// give up on names that collide once a fifth of them are taken.
pub const MAX_HEADERS: usize = 6553;

/// The values of each header of a map, under its name.
pub uninterp spec fn header_contents(headers: HeaderMap) -> Map<Seq<char>, Seq<Seq<u8>>>;

/// No headers.
pub open spec fn no_headers() -> Map<Seq<char>, Seq<Seq<u8>>> {
    Map::empty()
}

/// Headers on top of others: where both have a name, all of its values are those of `other`.
pub open spec fn merged(
    headers: Map<Seq<char>, Seq<Seq<u8>>>,
    other: Map<Seq<char>, Seq<Seq<u8>>>,
) -> Map<Seq<char>, Seq<Seq<u8>>> {
    headers.union_prefer_right(other)
}

/// `HeaderMap::default`: a map without headers.
#[verifier::external_body]
pub(crate) fn empty_headers() -> (r: HeaderMap)
    ensures
        header_contents(r) == no_headers(),
{
    HeaderMap::default()
}

/// The characters of the name of a header.
pub uninterp spec fn name_text(name: HeaderName) -> Seq<char>;

/// Names as texts.
pub open spec fn texts(names: Seq<HeaderName>) -> Seq<Seq<char>> {
    names.map_values(|name: HeaderName| name_text(name))
}

/// Whether names are those of a map of headers, each of them once.
pub open spec fn are_names_of(
    names: Seq<HeaderName>,
    headers: Map<Seq<char>, Seq<Seq<u8>>>,
) -> bool {
    &&& texts(names).no_duplicates()
    &&& texts(names).to_set() == headers.dom()
}

/// Whether there are more names than a map takes whatever they hash to.
pub open spec fn crowded(headers: Map<Seq<char>, Seq<Seq<u8>>>) -> bool {
    headers.dom().len() > MAX_HEADERS
}

/// `HeaderMap::keys`, collected: every name of the map once.
#[verifier::external_body]
fn names_of(headers: &HeaderMap) -> (r: Vec<HeaderName>)
    ensures
        are_names_of(r@, header_contents(*headers)),
{
    headers.keys().cloned().collect()
}

/// `HeaderMap::contains_key`: whether the map has values under a name.
#[verifier::external_body]
fn has_name(headers: &HeaderMap, name: &HeaderName) -> (r: bool)
    ensures
        r == header_contents(*headers).contains_key(name_text(*name)),
{
    headers.contains_key(name)
}

/// `HeaderMap::extend` by another map: under each name of the other map its values replace those
/// that were there. It panics where the map cannot grow, which it always can up to [`MAX_HEADERS`]
/// names.
#[verifier::external_body]
fn extend_headers(headers: &mut HeaderMap, other: HeaderMap)
    requires
        !crowded(merged(header_contents(*old(headers)), header_contents(other))),
    ensures
        header_contents(*final(headers)) == merged(
            header_contents(*old(headers)),
            header_contents(other),
        ),
{
    headers.extend(other);
}

/// Whether two maps of headers have more names together than one map takes whatever they hash to.
fn too_many_names(config: &HeaderMap, passthrough: &HeaderMap) -> (r: bool)
    ensures
        r == crowded(merged(header_contents(*config), header_contents(*passthrough))),
{
    let ghost base = header_contents(*config);
    let ghost other = header_contents(*passthrough);
    let configured: Vec<HeaderName> = names_of(config);
    let names: Vec<HeaderName> = names_of(passthrough);
    let ghost views = texts(names@);
    let mut count: usize = configured.len();
    proof {
        texts(configured@).unique_seq_to_set();
        lemma_crowded(base, other, views, 0);
        assert(base.dom().union(views.take(0).to_set()) =~= base.dom());
    }
    if count > MAX_HEADERS {
        return true;
    }
    let mut i: usize = 0;
    while i < names.len()
        invariant
            i <= names.len(),
            count <= MAX_HEADERS,
            base == header_contents(*config),
            other == header_contents(*passthrough),
            base.dom().finite(),
            are_names_of(names@, other),
            views == texts(names@),
            count == base.dom().union(views.take(i as int).to_set()).len(),
        decreases names.len() - i,
    {
        let ghost before = base.dom().union(views.take(i as int).to_set());
        proof {
            let name = views[i as int];
            assert(views.take(i + 1) =~= views.take(i as int).push(name));
            assert(views.take(i + 1).to_set() =~= views.take(i as int).to_set().insert(name)) by {
                broadcast use vstd::seq_lib::group_seq_properties;

            }
            assert(base.dom().union(views.take(i + 1).to_set()) =~= before.insert(name));
            assert(!views.take(i as int).contains(name));
            vstd::seq_lib::seq_to_set_is_finite(views.take(i as int));
            lemma_crowded(base, other, views, i + 1);
        }
        if !has_name(config, &names[i]) {
            count = count + 1;
            if count > MAX_HEADERS {
                return true;
            }
        } else {
            assert(before.insert(views[i as int]) =~= before);
        }
        i = i + 1;
    }
    proof {
        assert(views.take(i as int) =~= views);
        assert(merged(base, other).dom() =~= base.dom().union(other.dom()));
    }
    false
}

/// If some of the names are already too many, all of them are.
proof fn lemma_crowded(
    base: Map<Seq<char>, Seq<Seq<u8>>>,
    other: Map<Seq<char>, Seq<Seq<u8>>>,
    names: Seq<Seq<char>>,
    k: int,
)
    requires
        0 <= k <= names.len(),
        base.dom().finite(),
        names.to_set() == other.dom(),
    ensures
        base.dom().union(names.take(k).to_set()).len() <= merged(base, other).dom().len(),
{
    let some = base.dom().union(names.take(k).to_set());
    let all = merged(base, other).dom();
    vstd::seq_lib::seq_to_set_is_finite(names);
    assert(all =~= base.dom().union(other.dom()));
    assert(some.subset_of(all)) by {
        assert forall|name: Seq<char>| some.contains(name) implies all.contains(name) by {
            if names.take(k).contains(name) {
                let i = names.take(k).index_of(name);
                assert(names[i] == name);
                assert(names.contains(name));
            }
        }
    }
    vstd::set_lib::lemma_len_subset(some, all);
}

/// The headers of a request: those that carry the configuration, and on top of them those that are
/// passed through. Where they have more than [`MAX_HEADERS`] names in all, so that whether they fit
/// depends on how the names collide, both are given back.
pub fn request_headers(config: HeaderMap, passthrough: HeaderMap) -> (r: Result<
    HeaderMap,
    (HeaderMap, HeaderMap),
>)
    ensures
        match r {
            Ok(headers) => {
                &&& !crowded(merged(header_contents(config), header_contents(passthrough)))
                &&& header_contents(headers) == merged(
                    header_contents(config),
                    header_contents(passthrough),
                )
            },
            Err(given) => {
                &&& crowded(merged(header_contents(config), header_contents(passthrough)))
                &&& given == (config, passthrough)
            },
        },
{
    if too_many_names(&config, &passthrough) {
        return Err((config, passthrough));
    }
    let mut headers: HeaderMap = config;
    extend_headers(&mut headers, passthrough);
    Ok(headers)
}

/// Headers that are passed through win over those of the configuration, and no header is lost
/// otherwise.
pub proof fn passed_through_headers_win(
    config: Map<Seq<char>, Seq<Seq<u8>>>,
    passthrough: Map<Seq<char>, Seq<Seq<u8>>>,
    name: Seq<char>,
)
    ensures
        passthrough.contains_key(name) ==> merged(config, passthrough).contains_key(name) && merged(
            config,
            passthrough,
        )[name] == passthrough[name],
        !passthrough.contains_key(name) && config.contains_key(name) ==> merged(
            config,
            passthrough,
        ).contains_key(name) && merged(config, passthrough)[name] == config[name],
        !passthrough.contains_key(name) && !config.contains_key(name) ==> !merged(
            config,
            passthrough,
        ).contains_key(name),
{
}

/// Headers are too many if and only if there are more than 6553 names, and no headers are not.
pub proof fn when_headers_are_crowded(headers: Map<Seq<char>, Seq<Seq<u8>>>)
    ensures
        crowded(headers) <==> headers.dom().len() > 6553,
        !crowded(no_headers()),
        no_headers().dom() == Set::<Seq<char>>::empty(),
{
    assert(no_headers().dom() =~= Set::<Seq<char>>::empty());
}

} // verus!
