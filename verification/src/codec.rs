//! How site records are written as JSON objects and read back.
//!
//! A record is an object with the members `site_name`, `counter` and
//! `password_type`. Reading takes the first member of each name and passes
//! over members of other names. An object that lacks one of the three, or
//! holds a value of the wrong kind in it, or a counter outside `i32`, is no
//! record, and an array that holds one such object is no list of records.

use crate::json::{
    all_members_plain, all_names_distinct, array_parsed, array_text, array_view, members_plain,
    names_distinct, object_view, parse_array, render_array, Field, FieldView, ObjectView,
};
use crate::sites::{views, Site, SiteView};
use crate::text::same_text;
use vstd::prelude::*;

verus! {

/// The member that holds a record's name.
pub const SITE_NAME_MEMBER: &'static str = "site_name";

/// The member that holds a record's counter.
pub const COUNTER_MEMBER: &'static str = "counter";

/// The member that holds a record's password type.
pub const PASSWORD_TYPE_MEMBER: &'static str = "password_type";

/// Whether the object has a member of that name.
pub open spec fn has_member(object: ObjectView, name: Seq<char>) -> bool {
    exists|i: int| 0 <= i < object.len() && (#[trigger] object[i]).0 == name
}

/// Whether `at` is the place of the first member of that name.
pub open spec fn is_first_member(object: ObjectView, name: Seq<char>, at: int) -> bool {
    &&& 0 <= at < object.len()
    &&& object[at].0 == name
    &&& forall|j: int| 0 <= j < at ==> (#[trigger] object[j]).0 != name
}

/// The value of the first member of that name.
pub open spec fn member_named(object: ObjectView, name: Seq<char>) -> Option<FieldView> {
    if has_member(object, name) {
        Some(object[choose|at: int| is_first_member(object, name, at)].1)
    } else {
        None
    }
}

/// The object written for a record.
pub open spec fn object_of_site(site: SiteView) -> ObjectView {
    seq![
        (SITE_NAME_MEMBER@, FieldView::Text(site.site_name)),
        (COUNTER_MEMBER@, FieldView::Int(site.counter as i64)),
        (PASSWORD_TYPE_MEMBER@, FieldView::Text(site.password_type)),
    ]
}

/// The record read from an object, where the object is one.
pub open spec fn site_of_object(object: ObjectView) -> Option<SiteView> {
    match (
        member_named(object, SITE_NAME_MEMBER@),
        member_named(object, COUNTER_MEMBER@),
        member_named(object, PASSWORD_TYPE_MEMBER@),
    ) {
        (
            Some(FieldView::Text(site_name)),
            Some(FieldView::Int(counter)),
            Some(FieldView::Text(password_type)),
        ) => if i32::MIN <= counter <= i32::MAX {
            Some(SiteView { site_name, counter: counter as i32, password_type })
        } else {
            None
        },
        _ => None,
    }
}

/// The objects written for a list of records.
pub open spec fn objects_of_sites(sites: Seq<SiteView>) -> Seq<ObjectView> {
    Seq::new(sites.len(), |i: int| object_of_site(sites[i]))
}

/// The records read from an array of objects, where each object is one.
pub open spec fn sites_of_objects(objects: Seq<ObjectView>) -> Option<Seq<SiteView>> {
    if forall|i: int| 0 <= i < objects.len() ==> site_of_object(#[trigger] objects[i]) is Some {
        Some(Seq::new(objects.len(), |i: int| site_of_object(objects[i]).unwrap()))
    } else {
        None
    }
}

/// The JSON text written for a list of records.
pub open spec fn sites_text(sites: Seq<SiteView>) -> Seq<char> {
    array_text(objects_of_sites(sites))
}

/// The records read from a text: those that it holds where it is a list of
/// records, and none where it is anything else.
pub open spec fn sites_of_text(text: Seq<char>) -> Seq<SiteView> {
    match array_parsed(text) {
        Some(objects) => match sites_of_objects(objects) {
            Some(sites) => sites,
            None => Seq::empty(),
        },
        None => Seq::empty(),
    }
}

/// The first member of a name stands at one place only.
pub proof fn lemma_first_member_unique(object: ObjectView, name: Seq<char>, at: int)
    requires
        is_first_member(object, name, at),
    ensures
        has_member(object, name),
        member_named(object, name) == Some(object[at].1),
{
    let chosen = choose|at: int| is_first_member(object, name, at);
    assert(is_first_member(object, name, chosen));
    if chosen < at {
        assert(object[chosen].0 != name);
    } else if at < chosen {
        assert(object[at].0 != name);
    }
}

/// The three member names differ from each other.
pub proof fn lemma_member_names_differ()
    ensures
        SITE_NAME_MEMBER@ != COUNTER_MEMBER@,
        SITE_NAME_MEMBER@ != PASSWORD_TYPE_MEMBER@,
        COUNTER_MEMBER@ != PASSWORD_TYPE_MEMBER@,
{
    reveal_strlit("site_name");
    reveal_strlit("counter");
    reveal_strlit("password_type");
    assert(SITE_NAME_MEMBER@.len() == 9);
    assert(COUNTER_MEMBER@.len() == 7);
    assert(PASSWORD_TYPE_MEMBER@.len() == 13);
}

/// Reading the object written for a record gives the record; the object has
/// no two members of one name, and each member holds a text or a whole
/// number.
pub proof fn lemma_site_object_round_trip(site: SiteView)
    ensures
        site_of_object(object_of_site(site)) == Some(site),
        names_distinct(object_of_site(site)),
        members_plain(object_of_site(site)),
{
    lemma_member_names_differ();
    let object = object_of_site(site);
    assert(is_first_member(object, SITE_NAME_MEMBER@, 0));
    assert(is_first_member(object, COUNTER_MEMBER@, 1)) by {
        assert(object[1].0 == COUNTER_MEMBER@);
    }
    assert(is_first_member(object, PASSWORD_TYPE_MEMBER@, 2)) by {
        assert(object[2].0 == PASSWORD_TYPE_MEMBER@);
    }
    lemma_first_member_unique(object, SITE_NAME_MEMBER@, 0);
    lemma_first_member_unique(object, COUNTER_MEMBER@, 1);
    lemma_first_member_unique(object, PASSWORD_TYPE_MEMBER@, 2);
}

/// Reading the objects written for a list of records gives the list.
pub proof fn lemma_site_objects_round_trip(sites: Seq<SiteView>)
    ensures
        sites_of_objects(objects_of_sites(sites)) == Some(sites),
        all_names_distinct(objects_of_sites(sites)),
        all_members_plain(objects_of_sites(sites)),
{
    let objects = objects_of_sites(sites);
    assert forall|i: int| 0 <= i < objects.len() implies site_of_object(#[trigger] objects[i])
        == Some(sites[i]) && names_distinct(objects[i]) && members_plain(objects[i]) by {
        lemma_site_object_round_trip(sites[i]);
    }
    assert(sites_of_objects(objects).unwrap() =~= sites);
}

/// Looks for the first member of that name.
fn find_member(members: &Vec<(String, Field)>, name: &str) -> (found: Option<usize>)
    ensures
        match found {
            Some(at) => is_first_member(object_view(members@), name@, at as int),
            None => !has_member(object_view(members@), name@),
        },
{
    let mut i: usize = 0;
    while i < members.len()
        invariant
            0 <= i <= members.len(),
            forall|j: int| 0 <= j < i ==> (#[trigger] object_view(members@)[j]).0 != name@,
        decreases members.len() - i,
    {
        if same_text(members[i].0.as_str(), name) {
            return Some(i);
        }
        i += 1;
    }
    None
}

/// The text held by the first member of that name, where it holds one.
fn text_member(members: &Vec<(String, Field)>, name: &str) -> (text: Option<String>)
    ensures
        match text {
            Some(t) => member_named(object_view(members@), name@) == Some(FieldView::Text(t@)),
            None => !(member_named(object_view(members@), name@) matches Some(FieldView::Text(_))),
        },
{
    match find_member(members, name) {
        Some(at) => {
            proof {
                lemma_first_member_unique(object_view(members@), name@, at as int);
            }
            match &members[at].1 {
                Field::Text(text) => Some(text.clone()),
                _ => None,
            }
        },
        None => None,
    }
}

/// The whole number held by the first member of that name, where it holds
/// one.
fn int_member(members: &Vec<(String, Field)>, name: &str) -> (number: Option<i64>)
    ensures
        match number {
            Some(n) => member_named(object_view(members@), name@) == Some(FieldView::Int(n)),
            None => !(member_named(object_view(members@), name@) matches Some(FieldView::Int(_))),
        },
{
    match find_member(members, name) {
        Some(at) => {
            proof {
                lemma_first_member_unique(object_view(members@), name@, at as int);
            }
            match &members[at].1 {
                Field::Int(number) => Some(*number),
                _ => None,
            }
        },
        None => None,
    }
}

/// Writes a record as an object.
pub fn site_to_object(site: &Site) -> (members: Vec<(String, Field)>)
    ensures
        object_view(members@) == object_of_site(site@),
{
    let mut members: Vec<(String, Field)> = Vec::new();
    members.push((SITE_NAME_MEMBER.to_owned(), Field::Text(site.site_name.clone())));
    members.push((COUNTER_MEMBER.to_owned(), Field::Int(site.counter as i64)));
    members.push((PASSWORD_TYPE_MEMBER.to_owned(), Field::Text(site.password_type.clone())));
    assert(object_view(members@) =~= object_of_site(site@));
    members
}

/// Reads a record from an object, where the object is one.
pub fn site_from_object(members: &Vec<(String, Field)>) -> (site: Option<Site>)
    ensures
        match site {
            Some(s) => site_of_object(object_view(members@)) == Some(s@),
            None => site_of_object(object_view(members@)) is None,
        },
{
    let site_name = text_member(members, SITE_NAME_MEMBER);
    let counter = int_member(members, COUNTER_MEMBER);
    let password_type = text_member(members, PASSWORD_TYPE_MEMBER);
    match (site_name, counter, password_type) {
        (Some(site_name), Some(counter), Some(password_type)) => {
            if -2147483648 <= counter && counter <= 2147483647 {
                Some(Site { site_name, counter: counter as i32, password_type })
            } else {
                None
            }
        },
        _ => None,
    }
}

/// Writes a list of records as objects.
pub fn sites_to_objects(sites: &[Site]) -> (objects: Vec<Vec<(String, Field)>>)
    ensures
        array_view(objects@) == objects_of_sites(views(sites@)),
{
    let mut objects: Vec<Vec<(String, Field)>> = Vec::new();
    let mut i: usize = 0;
    while i < sites.len()
        invariant
            0 <= i <= sites.len(),
            objects.len() == i,
            forall|j: int| 0 <= j < i ==> object_view(#[trigger] objects@[j]@) == object_of_site(
                sites@[j]@,
            ),
        decreases sites.len() - i,
    {
        objects.push(site_to_object(&sites[i]));
        i += 1;
    }
    assert(array_view(objects@) =~= objects_of_sites(views(sites@)));
    objects
}

/// Reads a list of records from objects, where each object is a record.
pub fn sites_from_objects(objects: &Vec<Vec<(String, Field)>>) -> (sites: Option<Vec<Site>>)
    ensures
        match sites {
            Some(list) => sites_of_objects(array_view(objects@)) == Some(views(list@)),
            None => sites_of_objects(array_view(objects@)) is None,
        },
{
    let mut sites: Vec<Site> = Vec::new();
    let mut i: usize = 0;
    while i < objects.len()
        invariant
            0 <= i <= objects.len(),
            sites.len() == i,
            forall|j: int|
                0 <= j < i ==> site_of_object(#[trigger] array_view(objects@)[j]) == Some(
                    sites@[j]@,
                ),
        decreases objects.len() - i,
    {
        match site_from_object(&objects[i]) {
            Some(site) => {
                sites.push(site);
            },
            None => {
                assert(site_of_object(array_view(objects@)[i as int]) is None);
                return None;
            },
        }
        i += 1;
    }
    assert(sites_of_objects(array_view(objects@)).unwrap() =~= views(sites@));
    Some(sites)
}

/// Writes a list of records as JSON text. Reading the text gives the list
/// back.
pub fn encode_sites(sites: &[Site]) -> (text: String)
    ensures
        text@ == sites_text(views(sites@)),
        sites_of_text(text@) == views(sites@),
{
    let objects = sites_to_objects(sites);
    proof {
        lemma_site_objects_round_trip(views(sites@));
    }
    render_array(&objects)
}

/// Reads a list of records from JSON text; a text that is no list of records
/// gives the empty list.
pub fn decode_sites(text: &str) -> (sites: Vec<Site>)
    ensures
        views(sites@) == sites_of_text(text@),
{
    let found = match parse_array(text) {
        Some(objects) => sites_from_objects(&objects),
        None => None,
    };
    match found {
        Some(sites) => sites,
        None => {
            let none: Vec<Site> = Vec::new();
            assert(views(none@) =~= Seq::<SiteView>::empty());
            none
        },
    }
}

} // verus!
