//! Site records, and the operations on one user's list of them.

use crate::text::{
    comes_before, has_fragment, lemma_text_before_irreflexive, lemma_text_before_transitive,
    same_text, text_before, text_contains,
};
use vstd::prelude::*;

verus! {

/// What is kept of one site: all that is needed to make its password again.
#[derive(Debug, PartialEq, Eq)]
pub struct Site {
    /// The name that identifies the record in its list, compared exactly.
    pub site_name: String,
    /// The counter handed to the password derivation.
    pub counter: i32,
    /// The name of the password type handed to the password derivation.
    pub password_type: String,
}

/// A site record as a mathematical value.
pub ghost struct SiteView {
    pub site_name: Seq<char>,
    pub counter: i32,
    pub password_type: Seq<char>,
}

impl View for Site {
    type V = SiteView;

    open spec fn view(&self) -> SiteView {
        SiteView {
            site_name: self.site_name@,
            counter: self.counter,
            password_type: self.password_type@,
        }
    }
}

impl Clone for Site {
    fn clone(&self) -> (copy: Self)
        ensures
            copy@ == self@,
    {
        Site {
            site_name: self.site_name.clone(),
            counter: self.counter,
            password_type: self.password_type.clone(),
        }
    }
}

impl Site {
    /// A record made of the three values.
    pub fn new(site_name: &str, counter: i32, password_type: &str) -> (site: Site)
        ensures
            site@ == (SiteView {
                site_name: site_name@,
                counter,
                password_type: password_type@,
            }),
    {
        Site {
            site_name: site_name.to_owned(),
            counter,
            password_type: password_type.to_owned(),
        }
    }
}

/// Whether the list holds a record of that name.
pub open spec fn has_site(sites: Seq<SiteView>, name: Seq<char>) -> bool {
    exists|i: int| 0 <= i < sites.len() && (#[trigger] sites[i]).site_name == name
}

/// Whether `at` is the place of the first record of that name.
pub open spec fn is_first_named(sites: Seq<SiteView>, name: Seq<char>, at: int) -> bool {
    &&& 0 <= at < sites.len()
    &&& sites[at].site_name == name
    &&& forall|j: int| 0 <= j < at ==> (#[trigger] sites[j]).site_name != name
}

/// The place of the first record of that name, where there is one.
pub open spec fn first_named(sites: Seq<SiteView>, name: Seq<char>) -> int {
    choose|at: int| is_first_named(sites, name, at)
}

/// Whether no two records of the list share a name.
pub open spec fn names_unique(sites: Seq<SiteView>) -> bool {
    forall|i: int, j: int|
        0 <= i < j < sites.len() ==> (#[trigger] sites[i]).site_name != (
        #[trigger] sites[j]).site_name
}

/// Whether at most one record of the list has that name.
pub open spec fn at_most_once(sites: Seq<SiteView>, name: Seq<char>) -> bool {
    forall|i: int, j: int|
        0 <= i < j < sites.len() ==> !((#[trigger] sites[i]).site_name == name && (
        #[trigger] sites[j]).site_name == name)
}

/// Whether exactly one record of the list has that name.
pub open spec fn holds_once(sites: Seq<SiteView>, name: Seq<char>) -> bool {
    has_site(sites, name) && at_most_once(sites, name)
}

/// The list after adding `site`: unchanged where a record of that name is
/// there already, else with `site` at its end.
pub open spec fn with_site(sites: Seq<SiteView>, site: SiteView) -> Seq<SiteView> {
    if has_site(sites, site.site_name) {
        sites
    } else {
        sites.push(site)
    }
}

/// The list after an update: `site` stands in place of the first record of its
/// name; unchanged where there is none.
pub open spec fn with_update(sites: Seq<SiteView>, site: SiteView) -> Seq<SiteView> {
    if has_site(sites, site.site_name) {
        sites.update(first_named(sites, site.site_name), site)
    } else {
        sites
    }
}

/// The list without the records of that name, the others in their order.
pub open spec fn without_site(sites: Seq<SiteView>, name: Seq<char>) -> Seq<SiteView> {
    sites.filter(|s: SiteView| s.site_name != name)
}

/// The records whose name holds `fragment`, in their order.
pub open spec fn matching(sites: Seq<SiteView>, fragment: Seq<char>) -> Seq<SiteView> {
    sites.filter(|s: SiteView| text_contains(s.site_name, fragment))
}

/// The first record of a name stands at one place only.
pub proof fn lemma_first_named_unique(sites: Seq<SiteView>, name: Seq<char>, at: int)
    requires
        is_first_named(sites, name, at),
    ensures
        has_site(sites, name),
        first_named(sites, name) == at,
{
    let chosen = first_named(sites, name);
    assert(is_first_named(sites, name, chosen));
    if chosen < at {
        assert(sites[chosen].site_name != name);
    } else if at < chosen {
        assert(sites[at].site_name != name);
    }
}

/// The records of a vector as mathematical values.
pub open spec fn views(sites: Seq<Site>) -> Seq<SiteView> {
    Seq::new(sites.len(), |i: int| sites[i]@)
}

/// The views of a vector's records after a `push`.
proof fn lemma_views_push(before: Seq<Site>, after: Seq<Site>, site: Site)
    requires
        after == before.push(site),
    ensures
        views(after) == views(before).push(site@),
{
    assert(views(after) =~= views(before).push(site@));
}

/// Looks for the first record of that name.
pub fn find_site(sites: &Vec<Site>, name: &str) -> (found: Option<usize>)
    ensures
        match found {
            Some(at) => is_first_named(views(sites@), name@, at as int),
            None => !has_site(views(sites@), name@),
        },
{
    let mut i: usize = 0;
    while i < sites.len()
        invariant
            0 <= i <= sites.len(),
            forall|j: int| 0 <= j < i ==> (#[trigger] views(sites@)[j]).site_name != name@,
        decreases sites.len() - i,
    {
        if same_text(sites[i].site_name.as_str(), name) {
            assert(views(sites@)[i as int] == sites@[i as int]@);
            return Some(i);
        }
        assert(views(sites@)[i as int] == sites@[i as int]@);
        i += 1;
    }
    None
}

/// Adds `site` at the end unless a record of its name is there already, and
/// says whether it was added.
pub fn insert_site(sites: &mut Vec<Site>, site: Site) -> (added: bool)
    ensures
        views(final(sites)@) == with_site(views(old(sites)@), site@),
        added == !has_site(views(old(sites)@), site@.site_name),
{
    match find_site(sites, site.site_name.as_str()) {
        Some(_) => false,
        None => {
            proof {
                lemma_views_push(sites@, sites@.push(site), site);
            }
            sites.push(site);
            true
        },
    }
}

/// Puts `site` in place of the first record of its name, and says whether
/// there was one.
pub fn replace_site(sites: &mut Vec<Site>, site: Site) -> (replaced: bool)
    ensures
        views(final(sites)@) == with_update(views(old(sites)@), site@),
        replaced == has_site(views(old(sites)@), site@.site_name),
{
    match find_site(sites, site.site_name.as_str()) {
        Some(at) => {
            proof {
                lemma_first_named_unique(views(sites@), site@.site_name, at as int);
            }
            let ghost before = sites@;
            sites[at] = site;
            assert(sites@ == before.update(at as int, site));
            assert(views(sites@) =~= views(before).update(at as int, site@));
            true
        },
        None => false,
    }
}

/// Takes out every record of that name.
pub fn remove_site(sites: &mut Vec<Site>, name: &str)
    ensures
        views(final(sites)@) == without_site(views(old(sites)@), name@),
{
    let ghost before = views(sites@);
    let ghost keep = |s: SiteView| s.site_name != name@;
    let mut i: usize = 0;
    let ghost mut done: int = 0;
    proof {
        reveal(Seq::filter);
        assert(before.take(0).filter(keep) =~= views(sites@).take(0));
        assert(views(sites@).skip(0) =~= before.skip(0));
    }
    while i < sites.len()
        invariant
            0 <= i <= sites.len(),
            0 <= done <= before.len(),
            before.len() - done == sites.len() - i,
            keep == |s: SiteView| s.site_name != name@,
            views(sites@).take(i as int) == before.take(done).filter(keep),
            views(sites@).skip(i as int) == before.skip(done),
        decreases sites.len() - i,
    {
        let ghost now = views(sites@);
        proof {
            reveal(Seq::filter);
            assert(now[i as int] == now.skip(i as int)[0]);
            assert(before.take(done + 1).drop_last() =~= before.take(done));
            assert(before.take(done + 1).last() == before[done]);
        }
        if same_text(sites[i].site_name.as_str(), name) {
            sites.remove(i);
            proof {
                assert(views(sites@) =~= now.remove(i as int));
                assert(views(sites@).take(i as int) =~= now.take(i as int));
                assert(views(sites@).skip(i as int) =~= now.skip(i as int).skip(1));
                assert(before.skip(done).skip(1) =~= before.skip(done + 1));
            }
        } else {
            i += 1;
            proof {
                assert(now.take(i as int) =~= now.take(i - 1).push(now[i - 1]));
                assert(now.skip(i as int) =~= now.skip(i - 1).skip(1));
                assert(before.skip(done).skip(1) =~= before.skip(done + 1));
            }
        }
        proof {
            done = done + 1;
        }
    }
    proof {
        assert(views(sites@).take(i as int) =~= views(sites@));
        assert(before.take(done) =~= before);
    }
}

/// Keeps the records whose name holds `fragment`.
pub fn keep_matching(sites: &mut Vec<Site>, fragment: &str)
    ensures
        views(final(sites)@) == matching(views(old(sites)@), fragment@),
{
    let ghost before = views(sites@);
    let ghost keep = |s: SiteView| text_contains(s.site_name, fragment@);
    let mut i: usize = 0;
    let ghost mut done: int = 0;
    proof {
        reveal(Seq::filter);
        assert(before.take(0).filter(keep) =~= views(sites@).take(0));
        assert(views(sites@).skip(0) =~= before.skip(0));
    }
    while i < sites.len()
        invariant
            0 <= i <= sites.len(),
            0 <= done <= before.len(),
            before.len() - done == sites.len() - i,
            keep == |s: SiteView| text_contains(s.site_name, fragment@),
            views(sites@).take(i as int) == before.take(done).filter(keep),
            views(sites@).skip(i as int) == before.skip(done),
        decreases sites.len() - i,
    {
        let ghost now = views(sites@);
        proof {
            reveal(Seq::filter);
            assert(now[i as int] == now.skip(i as int)[0]);
            assert(before.take(done + 1).drop_last() =~= before.take(done));
            assert(before.take(done + 1).last() == before[done]);
        }
        if has_fragment(sites[i].site_name.as_str(), fragment) {
            i += 1;
            proof {
                assert(now.take(i as int) =~= now.take(i - 1).push(now[i - 1]));
                assert(now.skip(i as int) =~= now.skip(i - 1).skip(1));
                assert(before.skip(done).skip(1) =~= before.skip(done + 1));
            }
        } else {
            sites.remove(i);
            proof {
                assert(views(sites@) =~= now.remove(i as int));
                assert(views(sites@).take(i as int) =~= now.take(i as int));
                assert(views(sites@).skip(i as int) =~= now.skip(i as int).skip(1));
                assert(before.skip(done).skip(1) =~= before.skip(done + 1));
            }
        }
        proof {
            done = done + 1;
        }
    }
    proof {
        assert(views(sites@).take(i as int) =~= views(sites@));
        assert(before.take(done) =~= before);
    }
}

/// Whether a record of that name goes in at `at`: behind every record whose
/// name does not come after it, and before the first whose name does.
pub open spec fn is_slot(sorted: Seq<SiteView>, name: Seq<char>, at: int) -> bool {
    &&& 0 <= at <= sorted.len()
    &&& forall|j: int| 0 <= j < at ==> !text_before(name, (#[trigger] sorted[j]).site_name)
    &&& at < sorted.len() ==> text_before(name, sorted[at].site_name)
}

/// The place where a record of that name goes in.
pub open spec fn slot_for(sorted: Seq<SiteView>, name: Seq<char>) -> int {
    choose|at: int| is_slot(sorted, name, at)
}

/// The list with `site` put in at its place.
pub open spec fn insert_by_name(sorted: Seq<SiteView>, site: SiteView) -> Seq<SiteView> {
    sorted.insert(slot_for(sorted, site.site_name), site)
}

/// The list in the order of the names; records of one name keep their order.
pub open spec fn sorted_by_name(sites: Seq<SiteView>) -> Seq<SiteView>
    decreases sites.len(),
{
    if sites.len() == 0 {
        sites
    } else {
        insert_by_name(sorted_by_name(sites.drop_last()), sites.last())
    }
}

/// Whether no record stands before one whose name comes before its own.
pub open spec fn ordered_by_name(sites: Seq<SiteView>) -> bool {
    forall|i: int, j: int|
        0 <= i < j < sites.len() ==> !text_before(
            (#[trigger] sites[j]).site_name,
            (#[trigger] sites[i]).site_name,
        )
}

/// A record goes in at one place only.
pub proof fn lemma_slot_unique(sorted: Seq<SiteView>, name: Seq<char>, at: int)
    requires
        is_slot(sorted, name, at),
    ensures
        slot_for(sorted, name) == at,
{
    let chosen = slot_for(sorted, name);
    assert(is_slot(sorted, name, chosen));
    if chosen < at {
        assert(!text_before(name, sorted[chosen].site_name));
    } else if at < chosen {
        assert(!text_before(name, sorted[at].site_name));
    }
}

/// Finds the place where a record of that name goes into the first `upto`
/// records.
fn find_slot(sites: &Vec<Site>, upto: usize, name: &str) -> (at: usize)
    requires
        upto <= sites.len(),
    ensures
        is_slot(views(sites@).take(upto as int), name@, at as int),
{
    let ghost head = views(sites@).take(upto as int);
    let mut at: usize = 0;
    while at < upto
        invariant
            0 <= at <= upto <= sites.len(),
            head == views(sites@).take(upto as int),
            forall|j: int| 0 <= j < at ==> !text_before(name@, (#[trigger] head[j]).site_name),
        decreases upto - at,
    {
        assert(head[at as int] == sites@[at as int]@);
        if comes_before(name, sites[at].site_name.as_str()) {
            return at;
        }
        at += 1;
    }
    at
}

/// Puts the records in the order of their names; records of one name keep
/// their order.
pub fn sort_sites(sites: &mut Vec<Site>)
    ensures
        views(final(sites)@) == sorted_by_name(views(old(sites)@)),
{
    let ghost before = views(sites@);
    let mut i: usize = 0;
    proof {
        assert(views(sites@).take(0) =~= sorted_by_name(before.take(0)));
        assert(views(sites@).skip(0) =~= before.skip(0));
    }
    while i < sites.len()
        invariant
            0 <= i <= sites.len(),
            sites.len() == before.len(),
            views(sites@).take(i as int) == sorted_by_name(before.take(i as int)),
            views(sites@).skip(i as int) == before.skip(i as int),
        decreases sites.len() - i,
    {
        let ghost now = views(sites@);
        let site = sites.remove(i);
        let ghost rest = views(sites@);
        let at = find_slot(sites, i, site.site_name.as_str());
        proof {
            assert(site@ == now.skip(i as int)[0]);
            assert(rest =~= now.remove(i as int));
            assert(rest.take(i as int) =~= now.take(i as int));
            lemma_slot_unique(rest.take(i as int), site@.site_name, at as int);
        }
        sites.insert(at, site);
        proof {
            let then = views(sites@);
            assert(then =~= rest.insert(at as int, site@));
            assert(then.take(i + 1) =~= rest.take(i as int).insert(at as int, site@));
            assert(before.take(i + 1).drop_last() =~= before.take(i as int));
            assert(before.take(i + 1).last() == before[i as int]);
            assert(then.skip(i + 1) =~= now.skip(i as int).skip(1));
            assert(before.skip(i as int).skip(1) =~= before.skip(i + 1));
        }
        i += 1;
    }
    proof {
        assert(views(sites@).take(i as int) =~= views(sites@));
        assert(before.take(i as int) =~= before);
    }
}

/// A record can always go in somewhere.
pub proof fn lemma_slot_exists(sorted: Seq<SiteView>, name: Seq<char>) -> (at: int)
    ensures
        is_slot(sorted, name, at),
        slot_for(sorted, name) == at,
    decreases sorted.len(),
{
    let at = if sorted.len() == 0 {
        0
    } else {
        let head = sorted.drop_last();
        let inner = lemma_slot_exists(head, name);
        if inner < head.len() {
            assert(head[inner] == sorted[inner]);
            assert forall|j: int| 0 <= j < inner implies !text_before(
                name,
                (#[trigger] sorted[j]).site_name,
            ) by {
                assert(head[j] == sorted[j]);
            }
            inner
        } else {
            assert forall|j: int| 0 <= j < inner implies !text_before(
                name,
                (#[trigger] sorted[j]).site_name,
            ) by {
                assert(head[j] == sorted[j]);
            }
            if text_before(name, sorted.last().site_name) {
                inner
            } else {
                inner + 1
            }
        }
    };
    lemma_slot_unique(sorted, name, at);
    at
}

/// Putting a record in at its place keeps an ordered list ordered.
pub proof fn lemma_insert_keeps_order(sorted: Seq<SiteView>, site: SiteView)
    requires
        ordered_by_name(sorted),
    ensures
        ordered_by_name(insert_by_name(sorted, site)),
{
    let at = lemma_slot_exists(sorted, site.site_name);
    let after = insert_by_name(sorted, site);
    assert forall|i: int, j: int| 0 <= i < j < after.len() implies !text_before(
        (#[trigger] after[j]).site_name,
        (#[trigger] after[i]).site_name,
    ) by {
        if j == at {
            assert(after[i] == sorted[i]);
        } else if i == at {
            assert(after[j] == sorted[j - 1]);
            if text_before(after[j].site_name, site.site_name) {
                assert(at < sorted.len());
                lemma_text_before_transitive(
                    sorted[j - 1].site_name,
                    site.site_name,
                    sorted[at].site_name,
                );
                lemma_text_before_irreflexive(sorted[at].site_name);
            }
        } else {
            let from_i = if i < at { i } else { i - 1 };
            let from_j = if j < at { j } else { j - 1 };
            assert(after[i] == sorted[from_i]);
            assert(after[j] == sorted[from_j]);
        }
    }
}

/// The sorted list is in the order of the names.
pub proof fn lemma_sorted_is_ordered(sites: Seq<SiteView>)
    ensures
        ordered_by_name(sorted_by_name(sites)),
    decreases sites.len(),
{
    if sites.len() > 0 {
        lemma_sorted_is_ordered(sites.drop_last());
        lemma_insert_keeps_order(sorted_by_name(sites.drop_last()), sites.last());
    }
}

/// The sorted list holds the same records as the list, each as often.
pub proof fn lemma_sorted_same_records(sites: Seq<SiteView>)
    ensures
        sorted_by_name(sites).to_multiset() == sites.to_multiset(),
        sorted_by_name(sites).len() == sites.len(),
    decreases sites.len(),
{
    broadcast use vstd::seq_lib::group_to_multiset_ensures;

    if sites.len() > 0 {
        let head = sites.drop_last();
        let last = sites.last();
        lemma_sorted_same_records(head);
        let sorted = sorted_by_name(head);
        let at = lemma_slot_exists(sorted, last.site_name);
        let after = sorted.insert(at, last);
        assert(after.remove(at) =~= sorted);
        assert(after[at] == last);
        assert(sites =~= head.push(last));
        assert(after.to_multiset().remove(last) =~= sorted.to_multiset());
        assert(after.to_multiset().count(last) > 0) by {
            assert(after.contains(last));
        }
        assert(after.to_multiset() =~= sorted.to_multiset().insert(last));
    }
}

/// The names of a list with one more record put in at some place: those of
/// the list and that of the record.
pub proof fn lemma_insert_names(sites: Seq<SiteView>, at: int, site: SiteView, name: Seq<char>)
    requires
        0 <= at <= sites.len(),
    ensures
        has_site(sites.insert(at, site), name) == (has_site(sites, name) || site.site_name == name),
        at_most_once(sites.insert(at, site), name) == (at_most_once(sites, name) && (site.site_name
            == name ==> !has_site(sites, name))),
{
    let after = sites.insert(at, site);
    assert(after[at] == site);
    assert forall|i: int| 0 <= i < sites.len() implies #[trigger] sites[i] == after[if i < at {
        i
    } else {
        i + 1
    }] by {}
    if has_site(sites, name) {
        let i = choose|i: int| 0 <= i < sites.len() && (#[trigger] sites[i]).site_name == name;
        let k = if i < at {
            i
        } else {
            i + 1
        };
        assert(after[k].site_name == name);
        if site.site_name == name {
            if k < at {
                assert(after[k].site_name == name && after[at].site_name == name);
            } else {
                assert(after[at].site_name == name && after[k].site_name == name);
            }
            assert(!at_most_once(after, name));
        }
    }
    if has_site(after, name) && site.site_name != name {
        let k = choose|k: int| 0 <= k < after.len() && (#[trigger] after[k]).site_name == name;
        let i = if k < at {
            k
        } else {
            k - 1
        };
        assert(sites[i].site_name == name);
    }
    if at_most_once(after, name) {
        assert forall|i: int, j: int| 0 <= i < j < sites.len() implies !((
        #[trigger] sites[i]).site_name == name && (#[trigger] sites[j]).site_name == name) by {
            let k = if i < at {
                i
            } else {
                i + 1
            };
            let l = if j < at {
                j
            } else {
                j + 1
            };
            assert(after[k] == sites[i] && after[l] == sites[j]);
        }
    }
    if at_most_once(sites, name) && (site.site_name == name ==> !has_site(sites, name)) {
        assert forall|k: int, l: int| 0 <= k < l < after.len() implies !((
        #[trigger] after[k]).site_name == name && (#[trigger] after[l]).site_name == name) by {
            if k != at && l != at {
                let i = if k < at {
                    k
                } else {
                    k - 1
                };
                let j = if l < at {
                    l
                } else {
                    l - 1
                };
                assert(after[k] == sites[i] && after[l] == sites[j]);
            } else if k == at {
                assert(after[l] == sites[l - 1]);
            } else {
                assert(after[k] == sites[k]);
            }
        }
    }
}

/// A list has its names unique where it holds each name at most once.
pub proof fn lemma_names_unique_by_name(sites: Seq<SiteView>)
    ensures
        names_unique(sites) == (forall|name: Seq<char>| at_most_once(sites, name)),
{
    if names_unique(sites) {
        assert forall|name: Seq<char>| at_most_once(sites, name) by {}
    }
    if forall|name: Seq<char>| at_most_once(sites, name) {
        assert forall|i: int, j: int| 0 <= i < j < sites.len() implies (
        #[trigger] sites[i]).site_name != (#[trigger] sites[j]).site_name by {
            assert(at_most_once(sites, sites[i].site_name));
        }
    }
}

/// Sorting keeps the names: the sorted list holds a name where the list
/// does, and as often.
pub proof fn lemma_sorted_keeps_names(sites: Seq<SiteView>, name: Seq<char>)
    ensures
        has_site(sorted_by_name(sites), name) == has_site(sites, name),
        at_most_once(sorted_by_name(sites), name) == at_most_once(sites, name),
        holds_once(sorted_by_name(sites), name) == holds_once(sites, name),
    decreases sites.len(),
{
    if sites.len() > 0 {
        let head = sites.drop_last();
        let last = sites.last();
        lemma_sorted_keeps_names(head, name);
        let at = lemma_slot_exists(sorted_by_name(head), last.site_name);
        lemma_insert_names(sorted_by_name(head), at, last, name);
        lemma_insert_names(head, head.len() as int, last, name);
        assert(head.insert(head.len() as int, last) =~= sites);
    }
}

/// Sorting keeps the names of a list unique.
pub proof fn lemma_sorted_keeps_unique(sites: Seq<SiteView>)
    ensures
        names_unique(sorted_by_name(sites)) == names_unique(sites),
{
    let sorted = sorted_by_name(sites);
    lemma_names_unique_by_name(sites);
    lemma_names_unique_by_name(sorted);
    if names_unique(sites) {
        assert forall|name: Seq<char>| at_most_once(sorted, name) by {
            assert(at_most_once(sites, name));
            lemma_sorted_keeps_names(sites, name);
        }
    }
    if names_unique(sorted) {
        assert forall|name: Seq<char>| at_most_once(sites, name) by {
            assert(at_most_once(sorted, name));
            lemma_sorted_keeps_names(sites, name);
        }
    }
}

/// After a record was added the list holds its name, and holds it once where
/// it held it at most once before; the other names stand as before.
pub proof fn lemma_added_site_stands_once(sites: Seq<SiteView>, site: SiteView)
    ensures
        has_site(with_site(sites, site), site.site_name),
        at_most_once(sites, site.site_name) ==> holds_once(with_site(sites, site), site.site_name),
        names_unique(sites) ==> names_unique(with_site(sites, site)),
        forall|other: Seq<char>|
            other != site.site_name ==> has_site(with_site(sites, site), other) == has_site(
                sites,
                other,
            ),
{
    let after = with_site(sites, site);
    if !has_site(sites, site.site_name) {
        assert(sites.push(site) =~= sites.insert(sites.len() as int, site));
        lemma_insert_names(sites, sites.len() as int, site, site.site_name);
        assert forall|other: Seq<char>| other != site.site_name implies has_site(after, other)
            == has_site(sites, other) by {
            lemma_insert_names(sites, sites.len() as int, site, other);
        }
        if names_unique(sites) {
            lemma_names_unique_by_name(sites);
            lemma_names_unique_by_name(after);
            assert forall|name: Seq<char>| at_most_once(after, name) by {
                lemma_insert_names(sites, sites.len() as int, site, name);
            }
        }
    }
}

/// A record added a second time under the same name changes nothing.
pub proof fn lemma_add_twice_adds_once(sites: Seq<SiteView>, first: SiteView, second: SiteView)
    requires
        first.site_name == second.site_name,
    ensures
        with_site(with_site(sites, first), second) == with_site(sites, first),
{
    lemma_added_site_stands_once(sites, first);
}

/// An update keeps the names of the list, each at its place.
pub proof fn lemma_update_keeps_names(sites: Seq<SiteView>, site: SiteView)
    ensures
        with_update(sites, site).len() == sites.len(),
        forall|i: int|
            0 <= i < sites.len() ==> (#[trigger] with_update(sites, site)[i]).site_name
                == sites[i].site_name,
        names_unique(sites) ==> names_unique(with_update(sites, site)),
        forall|name: Seq<char>| has_site(with_update(sites, site), name) == has_site(sites, name),
        has_site(sites, site.site_name) ==> with_update(sites, site).contains(site),
{
    let after = with_update(sites, site);
    if has_site(sites, site.site_name) {
        let at = first_named(sites, site.site_name);
        let found = choose|i: int| 0 <= i < sites.len() && (#[trigger] sites[i]).site_name
            == site.site_name;
        let first = lemma_first_named_exists(sites, site.site_name, found);
        lemma_first_named_unique(sites, site.site_name, first);
        assert(after[at] == site);
    }
    assert forall|i: int| 0 <= i < sites.len() implies (#[trigger] after[i]).site_name
        == sites[i].site_name by {}
    if names_unique(sites) {
        assert forall|i: int, j: int| 0 <= i < j < after.len() implies (
        #[trigger] after[i]).site_name != (#[trigger] after[j]).site_name by {
            assert(sites[i].site_name != sites[j].site_name);
        }
    }
    assert forall|name: Seq<char>| has_site(after, name) == has_site(sites, name) by {
        if has_site(sites, name) {
            let i = choose|i: int| 0 <= i < sites.len() && (#[trigger] sites[i]).site_name == name;
            assert(after[i].site_name == name);
        }
        if has_site(after, name) {
            let i = choose|i: int| 0 <= i < after.len() && (#[trigger] after[i]).site_name == name;
            assert(sites[i].site_name == name);
        }
    }
}

/// Where a record of a name stands at `at`, a first record of that name
/// stands at or before it.
pub proof fn lemma_first_named_exists(sites: Seq<SiteView>, name: Seq<char>, at: int) -> (first:
    int)
    requires
        0 <= at < sites.len(),
        sites[at].site_name == name,
    ensures
        is_first_named(sites, name, first),
        first <= at,
    decreases at,
{
    if exists|j: int| 0 <= j < at && (#[trigger] sites[j]).site_name == name {
        let j = choose|j: int| 0 <= j < at && (#[trigger] sites[j]).site_name == name;
        lemma_first_named_exists(sites, name, j)
    } else {
        at
    }
}

/// After the records of a name were deleted the list holds none of that name;
/// the records of other names stand as before, and a list that held none of
/// that name is unchanged.
pub proof fn lemma_deleted_site_is_gone(sites: Seq<SiteView>, name: Seq<char>)
    ensures
        !has_site(without_site(sites, name), name),
        forall|other: Seq<char>|
            other != name ==> has_site(without_site(sites, name), other) == has_site(sites, other),
        forall|other: Seq<char>|
            at_most_once(sites, other) ==> at_most_once(without_site(sites, name), other),
        names_unique(sites) ==> names_unique(without_site(sites, name)),
        !has_site(sites, name) ==> without_site(sites, name) == sites,
    decreases sites.len(),
{
    reveal(Seq::filter);
    let after = without_site(sites, name);
    if sites.len() > 0 {
        let head = sites.drop_last();
        let last = sites.last();
        lemma_deleted_site_is_gone(head, name);
        let inner = without_site(head, name);
        assert(sites =~= head.insert(head.len() as int, last));
        if last.site_name != name {
            assert(after =~= inner.insert(inner.len() as int, last));
        } else {
            assert(after =~= inner);
        }
        lemma_insert_names(inner, inner.len() as int, last, name);
        lemma_insert_names(head, head.len() as int, last, name);
        assert forall|other: Seq<char>| other != name implies has_site(after, other) == has_site(
            sites,
            other,
        ) by {
            lemma_insert_names(inner, inner.len() as int, last, other);
            lemma_insert_names(head, head.len() as int, last, other);
        }
        assert forall|other: Seq<char>| at_most_once(sites, other) implies at_most_once(
            after,
            other,
        ) by {
            lemma_insert_names(inner, inner.len() as int, last, other);
            lemma_insert_names(head, head.len() as int, last, other);
        }
        if !has_site(sites, name) {
            assert(after =~= sites);
        }
    } else {
        assert(after =~= sites);
    }
    if names_unique(sites) {
        lemma_names_unique_by_name(sites);
        lemma_names_unique_by_name(after);
    }
}

} // verus!
