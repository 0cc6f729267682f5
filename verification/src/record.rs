//! Calendar records: a calendar holds components, a component holds
//! properties, a property may carry attributes.

use crate::text::same_text;
use vstd::prelude::*;
use vstd::string::StringExecFns;

verus! {

/// One line of a component: `NAME;KEY=VALUE;...:VALUE`.
#[derive(Clone, Debug)]
pub struct Property {
    pub name: String,
    pub value: String,
    pub attributes: Vec<(String, String)>,
}

/// A block of properties between `BEGIN:NAME` and `END:NAME`.
#[derive(Clone, Debug)]
pub struct Component {
    pub name: String,
    pub properties: Vec<Property>,
}

/// A calendar: the outermost block and the components that it encloses.
#[derive(Clone, Debug)]
pub struct Calendar {
    pub name: String,
    pub components: Vec<Component>,
}

/// What a property is in contracts.
pub struct PropertyView {
    pub name: Seq<char>,
    pub value: Seq<char>,
    pub attributes: Seq<(Seq<char>, Seq<char>)>,
}

/// What a component is in contracts.
pub struct ComponentView {
    pub name: Seq<char>,
    pub properties: Seq<PropertyView>,
}

/// What a calendar is in contracts.
pub struct CalendarView {
    pub name: Seq<char>,
    pub components: Seq<ComponentView>,
}

impl View for Property {
    type V = PropertyView;

    open spec fn view(&self) -> PropertyView {
        PropertyView {
            name: self.name@,
            value: self.value@,
            attributes: self.attributes@.map_values(|a: (String, String)| (a.0@, a.1@)),
        }
    }
}

impl View for Component {
    type V = ComponentView;

    open spec fn view(&self) -> ComponentView {
        ComponentView {
            name: self.name@,
            properties: self.properties@.map_values(|p: Property| p@),
        }
    }
}

impl View for Calendar {
    type V = CalendarView;

    open spec fn view(&self) -> CalendarView {
        CalendarView {
            name: self.name@,
            components: self.components@.map_values(|c: Component| c@),
        }
    }
}

/// The first property of `properties` that is called `name`.
pub open spec fn find_property(properties: Seq<PropertyView>, name: Seq<char>) -> Option<
    PropertyView,
>
    decreases properties.len(),
{
    if properties.len() == 0 {
        None
    } else if properties[0].name == name {
        Some(properties[0])
    } else {
        find_property(properties.drop_first(), name)
    }
}

/// The value of the first attribute of `attributes` under `key`.
pub open spec fn find_attribute(attributes: Seq<(Seq<char>, Seq<char>)>, key: Seq<char>) -> Option<
    Seq<char>,
>
    decreases attributes.len(),
{
    if attributes.len() == 0 {
        None
    } else if attributes[0].0 == key {
        Some(attributes[0].1)
    } else {
        find_attribute(attributes.drop_first(), key)
    }
}

/// Whether the property at place `i` is the first one called `name`.
pub open spec fn is_first_named(properties: Seq<PropertyView>, name: Seq<char>, i: int) -> bool {
    &&& 0 <= i < properties.len()
    &&& properties[i].name == name
    &&& forall|j: int| 0 <= j < i ==> (#[trigger] properties[j]).name != name
}

/// `find_property` finds the first property under the name, and finds
/// none only where the list has none.
pub proof fn lemma_find_property_is_first(properties: Seq<PropertyView>, name: Seq<char>)
    ensures
        match find_property(properties, name) {
            Some(p) => exists|i: int|
                is_first_named(properties, name, i) && #[trigger] properties[i] == p,
            None => forall|i: int|
                0 <= i < properties.len() ==> (#[trigger] properties[i]).name != name,
        },
    decreases properties.len(),
{
    if properties.len() > 0 {
        if properties[0].name == name {
            assert(is_first_named(properties, name, 0));
        } else {
            let rest = properties.drop_first();
            lemma_find_property_is_first(rest, name);
            match find_property(rest, name) {
                Some(p) => {
                    let i = choose|i: int| is_first_named(rest, name, i) && #[trigger] rest[i] == p;
                    assert forall|j: int| 0 <= j < i + 1 implies (#[trigger] properties[j]).name
                        != name by {
                        if j > 0 {
                            assert(rest[j - 1] == properties[j]);
                        }
                    }
                    assert(is_first_named(properties, name, i + 1));
                    assert(properties[i + 1] == p);
                },
                None => {
                    assert forall|i: int| 0 <= i < properties.len() implies (
                    #[trigger] properties[i]).name != name by {
                        if i > 0 {
                            assert(rest[i - 1] == properties[i]);
                        }
                    }
                },
            }
        }
    }
}

/// Looks up the first property of `ical` that is called `property_name`.
pub fn get_ical_property<'a>(ical: &'a Component, property_name: &str) -> (found: Option<
    &'a Property,
>)
    ensures
        match found {
            Some(p) => find_property(ical@.properties, property_name@) == Some(p@),
            None => find_property(ical@.properties, property_name@) is None,
        },
{
    let ghost all = ical@.properties;
    let mut i: usize = 0;
    assert(all.skip(0) == all);
    while i < ical.properties.len()
        invariant
            i <= ical.properties.len(),
            all == ical@.properties,
            find_property(all, property_name@) == find_property(all.skip(i as int), property_name@),
        decreases ical.properties.len() - i,
    {
        let property = &ical.properties[i];
        proof {
            assert(all.skip(i as int)[0] == property@);
            assert(all.skip(i as int).drop_first() == all.skip(i as int + 1));
        }
        if same_text(property.name.as_str(), property_name) {
            return Some(property);
        }
        i += 1;
    }
    None
}

/// The value of the first property called `name`, or `fallback` where the
/// component has none.
pub open spec fn value_or(properties: Seq<PropertyView>, name: Seq<char>, fallback: Seq<char>) -> Seq<
    char,
> {
    match find_property(properties, name) {
        Some(p) => p.value,
        None => fallback,
    }
}

/// How a component is named in a report: its name, its summary in quotes
/// and its start as written.
pub open spec fn description(ical: ComponentView) -> Seq<char> {
    ical.name + " '"@ + value_or(ical.properties, "SUMMARY"@, "(Unknown summary)"@) + "' at "@
        + value_or(ical.properties, "DTSTART"@, "(Unknown start time)"@)
}

/// Describes a component for a report, whether or not it can be decoded.
pub fn describe_ical_event(event: &Component) -> (text: String)
    ensures
        text@ == description(event@),
{
    let mut text = event.name.clone();
    text.append(" '");
    match get_ical_property(event, "SUMMARY") {
        Some(p) => text.append(p.value.as_str()),
        None => text.append("(Unknown summary)"),
    }
    text.append("' at ");
    match get_ical_property(event, "DTSTART") {
        Some(p) => text.append(p.value.as_str()),
        None => text.append("(Unknown start time)"),
    }
    text
}

impl Property {
    /// Looks up the value of the first attribute under `key`.
    pub fn get_attribute<'a>(&'a self, key: &str) -> (found: Option<&'a String>)
        ensures
            match found {
                Some(v) => find_attribute(self@.attributes, key@) == Some(v@),
                None => find_attribute(self@.attributes, key@) is None,
            },
    {
        let ghost all = self@.attributes;
        let mut i: usize = 0;
        assert(all.skip(0) == all);
        while i < self.attributes.len()
            invariant
                i <= self.attributes.len(),
                all == self@.attributes,
                find_attribute(all, key@) == find_attribute(all.skip(i as int), key@),
            decreases self.attributes.len() - i,
        {
            let attribute = &self.attributes[i];
            proof {
                assert(all.skip(i as int)[0] == (attribute.0@, attribute.1@));
                assert(all.skip(i as int).drop_first() == all.skip(i as int + 1));
            }
            if same_text(attribute.0.as_str(), key) {
                return Some(&attribute.1);
            }
            i += 1;
        }
        None
    }
}

/// The line of a property without attributes, with its line end.
pub open spec fn property_line(property: PropertyView) -> Seq<char> {
    property.name + ":"@ + property.value + "\n"@
}

/// The lines of `properties`, one after the other.
pub open spec fn property_lines(properties: Seq<PropertyView>) -> Seq<char>
    decreases properties.len(),
{
    if properties.len() == 0 {
        Seq::empty()
    } else {
        property_lines(properties.drop_last()) + property_line(properties.last())
    }
}

/// The text of a component: its opening line, its properties, its closing
/// line.
pub open spec fn component_text(component: ComponentView) -> Seq<char> {
    "BEGIN:"@ + component.name + "\n"@ + property_lines(component.properties) + "END:"@
        + component.name + "\n"@
}

/// The texts of `components`, one after the other.
pub open spec fn component_texts(components: Seq<ComponentView>) -> Seq<char>
    decreases components.len(),
{
    if components.len() == 0 {
        Seq::empty()
    } else {
        component_texts(components.drop_last()) + component_text(components.last())
    }
}

/// The text of a calendar: its opening line, its components, its closing
/// line.
pub open spec fn calendar_text(calendar: CalendarView) -> Seq<char> {
    "BEGIN:"@ + calendar.name + "\n"@ + component_texts(calendar.components) + "END:"@
        + calendar.name + "\n"@
}

/// Whether no property of the calendar carries an attribute.
pub open spec fn plain(calendar: CalendarView) -> bool {
    forall|i: int, j: int|
        0 <= i < calendar.components.len() && 0 <= j < calendar.components[i].properties.len()
            ==> (#[trigger] calendar.components[i].properties[j]).attributes.len() == 0
}

/// Whether a name is made of upper-case letters, digits and hyphens.
pub open spec fn is_label(name: Seq<char>) -> bool {
    forall|i: int|
        0 <= i < name.len() ==> {
            let c = #[trigger] name[i];
            ||| 'A' <= c <= 'Z'
            ||| '0' <= c <= '9'
            ||| c == '-'
        }
}

/// Whether a text holds a line feed or a carriage return.
pub open spec fn has_line_break(text: Seq<char>) -> bool {
    text.contains('\n') || text.contains('\r')
}

/// Whether a property is one plain line: its name is a label that neither
/// opens nor closes a block, it has no attributes, and its value has no
/// line break.
pub open spec fn is_simple_property(property: PropertyView) -> bool {
    &&& is_label(property.name)
    &&& property.name != "BEGIN"@
    &&& property.name != "END"@
    &&& property.attributes.len() == 0
    &&& !has_line_break(property.value)
}

/// Whether a calendar is written as plain lines: its name and the names of
/// its components are labels, and its properties are plain lines.
pub open spec fn simple(calendar: CalendarView) -> bool {
    &&& is_label(calendar.name)
    &&& forall|i: int|
        0 <= i < calendar.components.len() ==> is_label(
            (#[trigger] calendar.components[i]).name,
        )
    &&& forall|i: int, j: int|
        0 <= i < calendar.components.len() && 0 <= j < calendar.components[i].properties.len()
            ==> is_simple_property(#[trigger] calendar.components[i].properties[j])
}

/// Whether the reader reads a text, and hands out these components for it
/// and no others.
pub open spec fn reads_as(text: Seq<char>, components: Seq<ComponentView>) -> bool {
    &&& reading_failure(text) is None
    &&& forall|read: Seq<ComponentView>| #[trigger] may_read(text, read) ==> read == components
}

/// Writes a calendar out through `minicaldav::ical::Ical::serialize`. The
/// attributes are not handed over, so the calendar must have none. For a
/// block without attributes that function writes `BEGIN:` and the name, each
/// property as name, colon and value, the enclosed blocks in the same way,
/// then `END:` and the name, every line closed by a line feed.
///
/// One law of the reader, `minicaldav::parse_ical`, is claimed beside it.
/// The text of a calendar of plain lines is read without failure, line by
/// line as it was written: every line holds a colon and does not begin
/// with a space, so none is taken for a folded line; the name is what
/// stands before the first colon and the value what stands after it; and
/// only the lines that this function wrote open and close a block. So the
/// reader hands out the components of the calendar, each with its name
/// and with its properties in their order, and no others.
#[verifier::external_body]
pub(crate) fn serialize_calendar(calendar: &Calendar) -> (text: String)
    requires
        plain(calendar@),
    ensures
        text@ == calendar_text(calendar@),
        simple(calendar@) ==> reads_as(text@, calendar@.components),
{
    let mut root = minicaldav::ical::Ical::new(calendar.name.clone());
    for component in calendar.components.iter() {
        let mut block = minicaldav::ical::Ical::new(component.name.clone());
        for property in component.properties.iter() {
            block.properties.push(minicaldav::ical::Property::new(&property.name, &property.value));
        }
        root.children.push(block);
    }
    root.serialize()
}

/// The message with which the reader gives up on a calendar document, or
/// `None` where it reads the document.
pub uninterp spec fn reading_failure(data: Seq<char>) -> Option<Seq<char>>;

/// Whether the reader may hand out these blocks for this calendar document.
pub uninterp spec fn may_read(data: Seq<char>, components: Seq<ComponentView>) -> bool;

/// The views of a list of components.
pub open spec fn component_views(components: Seq<Component>) -> Seq<ComponentView> {
    components.map_values(|c: Component| c@)
}

/// Reads a calendar document through `minicaldav::parse_ical` and hands out
/// the blocks directly enclosed by the outermost one, each with its name and
/// its properties, or the message of the failure.
///
/// Whether that function fails, and with which message, follows from the
/// lines of the document alone, and that much is claimed. The blocks that
/// it hands out are not a function of the document: it writes a folded
/// property out and reads it again, its attributes in the order of a hash
/// map, so the same document may give different properties. Of the blocks
/// it is claimed only that they are among those that the document may
/// give.
#[verifier::external_body]
pub(crate) fn parse_components(data: &str) -> (outcome: Result<Vec<Component>, String>)
    ensures
        match outcome {
            Ok(components) => reading_failure(data@) is None && may_read(
                data@,
                component_views(components@),
            ),
            Err(message) => reading_failure(data@) == Some(message@),
        },
{
    let root = minicaldav::parse_ical(data).map_err(|error| error.to_string())?;
    let copy = |p: &minicaldav::ical::Property| Property {
        name: p.name.clone(),
        value: p.value.clone(),
        attributes: p.attributes.iter().map(|(k, v)| (k.clone(), v.clone())).collect(),
    };
    let blocks = root.children.iter().map(|block| Component {
        name: block.name.clone(),
        properties: block.properties.iter().map(copy).collect(),
    });
    Ok(blocks.collect())
}

} // verus!
