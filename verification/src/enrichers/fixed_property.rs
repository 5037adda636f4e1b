//! An enricher that sets one property to a fixed, already captured value.
use vstd::prelude::*;
use vstd::string::*;

verus! {

/// Sets a property with a fixed name to a fixed value on every event.
pub struct FixedPropertyEnricher<'a> {
    name: &'a str,
    value: String,
}

impl<'a> View for FixedPropertyEnricher<'a> {
    /// The property's name and its captured value.
    type V = (Seq<char>, Seq<char>);

    closed spec fn view(&self) -> (Seq<char>, Seq<char>) {
        (self.name@, self.value@)
    }
}

/// `props` with the property `name` set to `value`: replaced where it is present, added
/// at the end where it is not.
pub open spec fn set_property(props: Seq<(Seq<char>, Seq<char>)>, name: Seq<char>, value: Seq<char>) -> Seq<(Seq<char>, Seq<char>)> {
    if exists|i: int| 0 <= i < props.len() && props[i].0 == name {
        props.map_values(|p: (Seq<char>, Seq<char>)| if p.0 == name { (name, value) } else { p })
    } else {
        props.push((name, value))
    }
}

/// The text of a list of properties.
pub open spec fn owned_props_view(props: Seq<(String, String)>) -> Seq<(Seq<char>, Seq<char>)> {
    props.map_values(|p: (String, String)| (p.0@, p.1@))
}

impl<'a> FixedPropertyEnricher<'a> {
    /// An enricher setting the property `name` to `value`, a captured property value.
    pub fn new(name: &'a str, value: String) -> (r: FixedPropertyEnricher<'a>)
        ensures
            r@ == (name@, value@),
    {
        FixedPropertyEnricher { name, value }
    }

    /// Set the enricher's property on an event's properties, replacing any existing
    /// value of it.
    pub fn enrich(&self, props: &mut Vec<(String, String)>)
        ensures
            owned_props_view(final(props)@) == set_property(owned_props_view(old(props)@), self@.0, self@.1),
    {
        let ghost old_v = owned_props_view(props@);
        let name = String::from_str(self.name);
        let mut found = false;
        let mut i: usize = 0;
        while i < props.len()
            invariant
                i <= props@.len(),
                props@.len() == old_v.len(),
                old_v == owned_props_view(old(props)@),
                name@ == self@.0,
                found <==> exists|j: int| 0 <= j < i && old_v[j].0 == self@.0,
                forall|j: int| 0 <= j < i ==> #[trigger] owned_props_view(props@)[j] == (if old_v[j].0 == self@.0 {
                    self@
                } else {
                    old_v[j]
                }),
                forall|j: int| i <= j < props@.len() ==> #[trigger] props@[j] == old(props)@[j],
            decreases props@.len() - i,
        {
            let ghost before = props@;
            assert(owned_props_view(props@)[i as int] == old_v[i as int]);
            let is_match = props[i].0 == name;
            assert(is_match == (old_v[i as int].0 == self@.0));
            if is_match {
                let n = name.clone();
                let v = self.value.clone();
                props.set(i, (n, v));
                assert(owned_props_view(props@)[i as int] == self@);
                found = true;
            }
            assert forall|j: int| 0 <= j < i implies #[trigger] owned_props_view(props@)[j] == owned_props_view(before)[j] by {}
            i = i + 1;
        }
        if !found {
            let v = self.value.clone();
            let ghost before = props@;
            assert(owned_props_view(before) =~= old_v);
            props.push((name, v));
            assert(owned_props_view(props@) =~= old_v.push(self@));
        } else {
            assert(owned_props_view(props@) =~= old_v.map_values(|p: (Seq<char>, Seq<char>)| if p.0 == self@.0 { self@ } else { p }));
        }
    }
}

} // verus!
