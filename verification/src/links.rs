//! The two groups that a package's download links fall into, and what holds
//! of them.
//!
//! A link is a zsync link if its text contains the zsync marker, and a regular
//! link otherwise. Separating a list of links keeps each group in the order in
//! which its links stood in the list.

use crate::marker::{contains_pattern, zsync_marker};
use vstd::prelude::*;

verus! {

/// Why a package's download links could not be separated.
#[derive(Debug, Clone, Copy, PartialEq, Eq, Hash, Structural)]
pub enum ErrorKind {
    /// The package has no list of download links at all.
    NoLinks,
    /// There is a list, but no link in it is without the zsync marker. An
    /// empty list is such a list.
    NoRegularLinks,
    /// There is a regular link, but no link carries the zsync marker.
    NoZsyncLinks,
}

/// A link points at a zsync control file if the marker stands anywhere in it.
pub open spec fn is_zsync_link(link: Seq<char>) -> bool {
    contains_pattern(link, zsync_marker())
}

/// The zsync links among `links`, in their order.
pub open spec fn zsync_links_of(links: Seq<Seq<char>>) -> Seq<Seq<char>> {
    links.filter(|link: Seq<char>| is_zsync_link(link))
}

/// The regular links among `links`, in their order.
pub open spec fn regular_links_of(links: Seq<Seq<char>>) -> Seq<Seq<char>> {
    links.filter(|link: Seq<char>| !is_zsync_link(link))
}

/// Every link in `links` carries the zsync marker.
pub open spec fn all_zsync(links: Seq<Seq<char>>) -> bool {
    forall|i: int| 0 <= i < links.len() ==> is_zsync_link(#[trigger] links[i])
}

/// No link in `links` carries the zsync marker.
pub open spec fn all_regular(links: Seq<Seq<char>>) -> bool {
    forall|i: int| 0 <= i < links.len() ==> !is_zsync_link(#[trigger] links[i])
}

/// At least one link in `links` carries the zsync marker.
pub open spec fn has_zsync_link(links: Seq<Seq<char>>) -> bool {
    exists|i: int| 0 <= i < links.len() && is_zsync_link(#[trigger] links[i])
}

/// At least one link in `links` is without the zsync marker.
pub open spec fn has_regular_link(links: Seq<Seq<char>>) -> bool {
    exists|i: int| 0 <= i < links.len() && !is_zsync_link(#[trigger] links[i])
}

/// What separating a package's download links gives: the regular links and
/// the zsync links, or the reason why there is no such pair. A missing list is
/// reported first, then a missing regular link, then a missing zsync link.
pub open spec fn separated(download_link: Option<Seq<Seq<char>>>) -> Result<
    (Seq<Seq<char>>, Seq<Seq<char>>),
    ErrorKind,
> {
    match download_link {
        None => Err(ErrorKind::NoLinks),
        Some(links) => {
            if regular_links_of(links).len() == 0 {
                Err(ErrorKind::NoRegularLinks)
            } else if zsync_links_of(links).len() == 0 {
                Err(ErrorKind::NoZsyncLinks)
            } else {
                Ok((regular_links_of(links), zsync_links_of(links)))
            }
        },
    }
}

/// `group` is made of the links that stand in `links` at the positions
/// `places`, and `places` runs through `links` from front to back.
pub open spec fn drawn_in_order(
    links: Seq<Seq<char>>,
    places: Seq<int>,
    group: Seq<Seq<char>>,
) -> bool {
    &&& places.len() == group.len()
    &&& forall|k: int|
        0 <= k < places.len() ==> 0 <= #[trigger] places[k] < links.len() && links[places[k]]
            == group[k]
    &&& forall|a: int, b: int|
        0 <= a < b < places.len() ==> #[trigger] places[a] < #[trigger] places[b]
}

/// The positions `regular_places` and `zsync_places` show how `regular` and
/// `zsync` split `links`: each group is drawn in order from its positions, and
/// each position of `links` is among the zsync positions if its link carries
/// the marker, and among the regular positions if it does not.
pub open spec fn split_at(
    links: Seq<Seq<char>>,
    regular_places: Seq<int>,
    zsync_places: Seq<int>,
    regular: Seq<Seq<char>>,
    zsync: Seq<Seq<char>>,
) -> bool {
    &&& drawn_in_order(links, regular_places, regular)
    &&& drawn_in_order(links, zsync_places, zsync)
    &&& forall|i: int|
        0 <= i < links.len() ==> (#[trigger] zsync_places.contains(i) <==> is_zsync_link(links[i]))
    &&& forall|i: int|
        0 <= i < links.len() ==> (#[trigger] regular_places.contains(i) <==> !is_zsync_link(
            links[i],
        ))
}

/// `regular` and `zsync` split `links` without reordering: each link of
/// `links` is drawn into exactly one of them, the one that the marker decides,
/// and keeps its place among the links of its group.
pub open spec fn stable_split(
    links: Seq<Seq<char>>,
    regular: Seq<Seq<char>>,
    zsync: Seq<Seq<char>>,
) -> bool {
    exists|regular_places: Seq<int>, zsync_places: Seq<int>|
        split_at(links, regular_places, zsync_places, regular, zsync)
}

/// A link added at the end of a list joins the end of the one group that the
/// marker puts it in, and leaves the other group as it was.
pub proof fn lemma_next_link_joins_one_group(links: Seq<Seq<char>>, link: Seq<char>)
    ensures
        zsync_links_of(links.push(link)) == if is_zsync_link(link) {
            zsync_links_of(links).push(link)
        } else {
            zsync_links_of(links)
        },
        regular_links_of(links.push(link)) == if is_zsync_link(link) {
            regular_links_of(links)
        } else {
            regular_links_of(links).push(link)
        },
{
    links.lemma_filter_push(link, |link: Seq<char>| is_zsync_link(link));
    links.lemma_filter_push(link, |link: Seq<char>| !is_zsync_link(link));
}

/// An empty list has two empty groups.
pub proof fn lemma_no_links_no_groups()
    ensures
        zsync_links_of(Seq::empty()) == Seq::<Seq<char>>::empty(),
        regular_links_of(Seq::empty()) == Seq::<Seq<char>>::empty(),
{
    reveal(Seq::filter);
}

/// The marker alone decides the group of a link: every link of the zsync
/// group carries it, and no link of the regular group does.
pub proof fn lemma_groups_decided_by_marker(links: Seq<Seq<char>>)
    ensures
        all_zsync(zsync_links_of(links)),
        all_regular(regular_links_of(links)),
{
    assert forall|k: int| 0 <= k < zsync_links_of(links).len() implies is_zsync_link(
        #[trigger] zsync_links_of(links)[k],
    ) by {
        links.lemma_filter_pred(|link: Seq<char>| is_zsync_link(link), k);
    }
    assert forall|k: int| 0 <= k < regular_links_of(links).len() implies !is_zsync_link(
        #[trigger] regular_links_of(links)[k],
    ) by {
        links.lemma_filter_pred(|link: Seq<char>| !is_zsync_link(link), k);
    }
}

/// The two groups together hold the links of the list, each as often as the
/// list holds it, and nothing else.
pub proof fn lemma_groups_hold_every_link(links: Seq<Seq<char>>)
    ensures
        regular_links_of(links).to_multiset().add(zsync_links_of(links).to_multiset())
            == links.to_multiset(),
        regular_links_of(links).to_set().union(zsync_links_of(links).to_set()) == links.to_set(),
        regular_links_of(links).len() + zsync_links_of(links).len() == links.len(),
    decreases links.len(),
{
    broadcast use vstd::seq_lib::group_to_multiset_ensures;

    if links.len() == 0 {
        lemma_no_links_no_groups();
        assert(links =~= Seq::empty());
    } else {
        let earlier = links.drop_last();
        let link = links.last();
        assert(links =~= earlier.push(link));
        lemma_groups_hold_every_link(earlier);
        lemma_next_link_joins_one_group(earlier, link);
        earlier.lemma_push_to_set_commute(link);
        regular_links_of(earlier).lemma_push_to_set_commute(link);
        zsync_links_of(earlier).lemma_push_to_set_commute(link);
    }
}

/// Separating keeps the order: the two groups are a stable split of the list.
pub proof fn lemma_groups_keep_order(links: Seq<Seq<char>>)
    ensures
        stable_split(links, regular_links_of(links), zsync_links_of(links)),
    decreases links.len(),
{
    if links.len() == 0 {
        lemma_no_links_no_groups();
        assert(links =~= Seq::empty());
        let nowhere = Seq::<int>::empty();
        assert(split_at(links, nowhere, nowhere, regular_links_of(links), zsync_links_of(links)));
    } else {
        let earlier = links.drop_last();
        let link = links.last();
        let place: int = links.len() - 1;
        assert(links =~= earlier.push(link));
        lemma_groups_keep_order(earlier);
        lemma_next_link_joins_one_group(earlier, link);
        let (regular_before, zsync_before) = choose|
            regular_places: Seq<int>,
            zsync_places: Seq<int>,
        |
            split_at(
                earlier,
                regular_places,
                zsync_places,
                regular_links_of(earlier),
                zsync_links_of(earlier),
            );
        let regular_places = if is_zsync_link(link) {
            regular_before
        } else {
            regular_before.push(place)
        };
        let zsync_places = if is_zsync_link(link) {
            zsync_before.push(place)
        } else {
            zsync_before
        };
        lemma_places_extend(earlier, link, regular_before, regular_links_of(earlier));
        lemma_places_extend(earlier, link, zsync_before, zsync_links_of(earlier));
        assert forall|i: int| 0 <= i < links.len() implies (#[trigger] zsync_places.contains(i)
            <==> is_zsync_link(links[i])) by {
            lemma_place_listed(earlier, zsync_before, zsync_links_of(earlier), i);
        }
        assert forall|i: int| 0 <= i < links.len() implies (#[trigger] regular_places.contains(i)
            <==> !is_zsync_link(links[i])) by {
            lemma_place_listed(earlier, regular_before, regular_links_of(earlier), i);
        }
        assert(split_at(
            links,
            regular_places,
            zsync_places,
            regular_links_of(links),
            zsync_links_of(links),
        ));
    }
}

/// Positions drawn from a list are still drawn in order from the list with
/// one more link, with or without the new last position.
proof fn lemma_places_extend(
    earlier: Seq<Seq<char>>,
    link: Seq<char>,
    places: Seq<int>,
    group: Seq<Seq<char>>,
)
    requires
        drawn_in_order(earlier, places, group),
    ensures
        drawn_in_order(earlier.push(link), places, group),
        drawn_in_order(earlier.push(link), places.push(earlier.len() as int), group.push(link)),
{
    let longer = earlier.push(link);
    let more_places = places.push(earlier.len() as int);
    let more = group.push(link);
    assert forall|k: int| 0 <= k < more_places.len() implies 0 <= #[trigger] more_places[k]
        < longer.len() && longer[more_places[k]] == more[k] by {
        if k < places.len() {
            assert(more_places[k] == places[k]);
        }
    }
    assert forall|a: int, b: int| 0 <= a < b < more_places.len() implies #[trigger] more_places[a]
        < #[trigger] more_places[b] by {
        assert(more_places[a] == places[a]);
        if b < places.len() {
            assert(more_places[b] == places[b]);
        }
    }
}

/// Adding the new last position to a list of earlier positions changes
/// membership for that position only.
proof fn lemma_place_listed(
    earlier: Seq<Seq<char>>,
    places: Seq<int>,
    group: Seq<Seq<char>>,
    i: int,
)
    requires
        drawn_in_order(earlier, places, group),
        0 <= i <= earlier.len(),
    ensures
        places.push(earlier.len() as int).contains(i) <==> places.contains(i) || i == earlier.len(),
        i == earlier.len() ==> !places.contains(i),
{
    let more_places = places.push(earlier.len() as int);
    if places.contains(i) {
        let k: int = choose|k: int| 0 <= k < places.len() && places[k] == i;
        assert(more_places[k] == i);
    }
    if i == earlier.len() {
        assert(more_places[places.len() as int] == i);
    }
    if more_places.contains(i) && i != earlier.len() {
        let k: int = choose|k: int| 0 <= k < more_places.len() && more_places[k] == i;
        assert(places[k] == i);
    }
}

/// A stable split is the only one: whatever pair of groups splits the list
/// without reordering is the pair of the regular links and the zsync links.
pub proof fn lemma_stable_split_is_unique(
    links: Seq<Seq<char>>,
    regular: Seq<Seq<char>>,
    zsync: Seq<Seq<char>>,
)
    requires
        stable_split(links, regular, zsync),
    ensures
        regular == regular_links_of(links),
        zsync == zsync_links_of(links),
{
    let (regular_places, zsync_places) = choose|regular_places: Seq<int>, zsync_places: Seq<int>|
        split_at(links, regular_places, zsync_places, regular, zsync);
    lemma_drawn_group_is_filtered(
        links,
        regular_places,
        regular,
        |link: Seq<char>| !is_zsync_link(link),
    );
    lemma_drawn_group_is_filtered(
        links,
        zsync_places,
        zsync,
        |link: Seq<char>| is_zsync_link(link),
    );
}

/// A group drawn in order from exactly the positions whose links are wanted
/// is the list with the unwanted links left out.
proof fn lemma_drawn_group_is_filtered(
    links: Seq<Seq<char>>,
    places: Seq<int>,
    group: Seq<Seq<char>>,
    wanted: spec_fn(Seq<char>) -> bool,
)
    requires
        drawn_in_order(links, places, group),
        forall|i: int|
            0 <= i < links.len() ==> (#[trigger] places.contains(i) <==> wanted(links[i])),
    ensures
        group == links.filter(wanted),
    decreases links.len(),
{
    if links.len() == 0 {
        if places.len() > 0 {
            assert(0 <= places[0] < links.len());
        }
        links.lemma_filter_len(wanted);
        assert(group =~= links.filter(wanted));
    } else {
        let earlier = links.drop_last();
        let link = links.last();
        let place: int = links.len() - 1;
        assert(links =~= earlier.push(link));
        earlier.lemma_filter_push(link, wanted);
        if wanted(link) {
            assert(places.contains(place));
            let k: int = choose|k: int| 0 <= k < places.len() && places[k] == place;
            if k < places.len() - 1 {
                assert(places[k] < places[k + 1]);
                assert(places[k + 1] < links.len());
            }
            let places_before = places.drop_last();
            let group_before = group.drop_last();
            assert forall|j: int| 0 <= j < places_before.len() implies 0
                <= #[trigger] places_before[j] < earlier.len() && earlier[places_before[j]]
                == group_before[j] by {
                assert(places[j] < places[k]);
            }
            assert forall|i: int| 0 <= i < earlier.len() implies (
                #[trigger] places_before.contains(i) <==> wanted(earlier[i])
            ) by {
                assert(earlier[i] == links[i]);
                if places_before.contains(i) {
                    let j: int = choose|j: int|
                        0 <= j < places_before.len() && places_before[j] == i;
                    assert(places[j] == i);
                }
                if places.contains(i) {
                    let j: int = choose|j: int| 0 <= j < places.len() && places[j] == i;
                    assert(places_before[j] == i);
                }
            }
            lemma_drawn_group_is_filtered(earlier, places_before, group_before, wanted);
            assert(group =~= group_before.push(link));
        } else {
            assert forall|j: int| 0 <= j < places.len() implies 0 <= #[trigger] places[j]
                < earlier.len() && earlier[places[j]] == group[j] by {
                if places[j] == place {
                    assert(places.contains(place));
                }
            }
            assert forall|i: int| 0 <= i < earlier.len() implies (#[trigger] places.contains(i)
                <==> wanted(earlier[i])) by {
                assert(earlier[i] == links[i]);
            }
            lemma_drawn_group_is_filtered(earlier, places, group, wanted);
        }
    }
}

/// A group is empty exactly when every link of the list belongs to the other
/// group.
pub proof fn lemma_empty_group(links: Seq<Seq<char>>)
    ensures
        regular_links_of(links).len() == 0 <==> all_zsync(links),
        zsync_links_of(links).len() == 0 <==> all_regular(links),
{
    let carries = |link: Seq<char>| is_zsync_link(link);
    let lacks = |link: Seq<char>| !is_zsync_link(link);
    if all_zsync(links) {
        links.lemma_all_neg_filter_empty(lacks);
    }
    if all_regular(links) {
        links.lemma_all_neg_filter_empty(carries);
    }
    if regular_links_of(links).len() == 0 {
        assert forall|i: int| 0 <= i < links.len() implies is_zsync_link(#[trigger] links[i]) by {
            if !is_zsync_link(links[i]) {
                links.lemma_filter_contains(lacks, i);
            }
        }
    }
    if zsync_links_of(links).len() == 0 {
        assert forall|i: int| 0 <= i < links.len() implies !is_zsync_link(#[trigger] links[i]) by {
            if is_zsync_link(links[i]) {
                links.lemma_filter_contains(carries, i);
            }
        }
    }
}

/// Which outcome separating has, told from the links themselves: no list, no
/// regular link, no zsync link, or at least one link of each kind. An empty
/// list counts as a list without a regular link.
pub proof fn lemma_separated_by_case(download_link: Option<Seq<Seq<char>>>)
    ensures
        download_link is None <==> (separated(download_link) matches Err(ErrorKind::NoLinks)),
        download_link matches Some(links) ==> {
            &&& all_zsync(links) <==> (separated(download_link) matches Err(
                ErrorKind::NoRegularLinks,
            ))
            &&& links.len() > 0 && all_regular(links) <==> (separated(download_link) matches Err(
                ErrorKind::NoZsyncLinks,
            ))
            &&& has_regular_link(links) && has_zsync_link(links) <==> (separated(
                download_link,
            ) matches Ok(groups) && groups == (regular_links_of(links), zsync_links_of(links)))
        },
{
    if let Some(links) = download_link {
        lemma_empty_group(links);
        lemma_groups_hold_every_link(links);
    }
}

} // verus!
