//! The data model: a parsed launcher document as plain values, attribute
//! lookup, the single-section validator, and the error type.

use vstd::prelude::*;
use vstd::string::*;
use crate::text::{str_eq, str_views};

verus! {

/// Mathematical model of one attribute: key, optional locale parameter,
/// and the list of values recorded for that key.
pub type AttrModel = (Seq<char>, Option<Seq<char>>, Seq<Seq<char>>);

/// Mathematical model of one section: its name and its attributes in order.
pub type SectionModel = (Seq<char>, Seq<AttrModel>);

/// Mathematical model of a whole document: its sections in order.
pub type DocModel = Seq<SectionModel>;

/// One attribute of a section. Keys may repeat in malformed input, and a
/// key may carry a locale parameter (`Name[fr]`); both are carried through
/// so that the model loses nothing the parser saw.
pub struct Attr {
    pub key: String,
    pub param: Option<String>,
    pub values: Vec<String>,
}

/// One named section with its attributes in source order.
pub struct Section {
    pub name: String,
    pub attrs: Vec<Attr>,
}

/// A parsed launcher document.
pub struct Document {
    pub sections: Vec<Section>,
}

impl View for Attr {
    type V = AttrModel;

    open spec fn view(&self) -> AttrModel {
        (
            self.key@,
            match self.param {
                Some(p) => Some(p@),
                None => None,
            },
            str_views(self.values@),
        )
    }
}

impl View for Section {
    type V = SectionModel;

    open spec fn view(&self) -> SectionModel {
        (self.name@, self.attrs@.map_values(|a: Attr| a@))
    }
}

impl View for Document {
    type V = DocModel;

    open spec fn view(&self) -> DocModel {
        self.sections@.map_values(|s: Section| s@)
    }
}

/// The name the one section must bear.
pub open spec fn desktop_entry_name() -> Seq<char> {
    "Desktop Entry"@
}

/// The key whose value holds the media-type list.
pub open spec fn mime_key() -> Seq<char> {
    "MimeType"@
}

/// The first value recorded for `key` without a locale parameter, if any.
pub open spec fn lookup_attr(attrs: Seq<AttrModel>, key: Seq<char>) -> Option<Seq<char>>
    decreases attrs.len(),
{
    if attrs.len() == 0 {
        None
    } else if attrs[0].0 == key && attrs[0].1 is None {
        if attrs[0].2.len() > 0 {
            Some(attrs[0].2[0])
        } else {
            None
        }
    } else {
        lookup_attr(attrs.subrange(1, attrs.len() as int), key)
    }
}

/// Looks an attribute up by key, ignoring keys that carry a locale
/// parameter.
pub fn attr_value<'a>(section: &'a Section, key: &str) -> (r: Option<&'a String>)
    ensures
        match r {
            Some(v) => lookup_attr(section@.1, key@) == Some(v@),
            None => lookup_attr(section@.1, key@) is None,
        },
{
    let ghost model = section@.1;
    let mut i: usize = 0;
    proof {
        assert(model.subrange(0, model.len() as int) =~= model);
    }
    while i < section.attrs.len()
        invariant
            i <= section.attrs@.len(),
            model == section@.1,
            model.len() == section.attrs@.len(),
            forall|j: int| 0 <= j < model.len() ==> model[j] == section.attrs@[j]@,
            lookup_attr(model, key@) == lookup_attr(
                model.subrange(i as int, model.len() as int),
                key@,
            ),
        decreases section.attrs@.len() - i,
    {
        let a: &Attr = &section.attrs[i];
        let ghost rest = model.subrange(i as int, model.len() as int);
        proof {
            assert(rest[0] == model[i as int]);
            assert(rest.subrange(1, rest.len() as int) =~= model.subrange(
                i + 1,
                model.len() as int,
            ));
        }
        if a.param.is_none() && str_eq(a.key.as_str(), key) {
            if a.values.len() > 0 {
                let v: &String = &a.values[0];
                assert(a@.2[0] == v@);
                return Some(v);
            } else {
                assert(a@.2.len() == 0);
                return None;
            }
        }
        i += 1;
    }
    proof {
        assert(model.subrange(model.len() as int, model.len() as int) =~= Seq::<
            AttrModel,
        >::empty());
    }
    None
}

/// What went wrong with one input file.
pub enum ErrorModel {
    /// The text is not a well-formed entry file.
    Parse,
    /// The section count is not one, or the one section is misnamed.
    Structure,
    /// The section has no `MimeType` attribute.
    MissingAttribute,
    /// A media-type token failed to parse; it is carried along.
    MalformedMediaType(Seq<char>),
}

/// The executable error type; its view is an [`ErrorModel`].
#[derive(Debug)]
pub enum DesktopError {
    Parse,
    Structure,
    MissingAttribute,
    MalformedMediaType(String),
}

impl View for DesktopError {
    type V = ErrorModel;

    open spec fn view(&self) -> ErrorModel {
        match self {
            DesktopError::Parse => ErrorModel::Parse,
            DesktopError::Structure => ErrorModel::Structure,
            DesktopError::MissingAttribute => ErrorModel::MissingAttribute,
            DesktopError::MalformedMediaType(t) => ErrorModel::MalformedMediaType(t@),
        }
    }
}

impl DesktopError {
    /// A human-readable description of the failure.
    pub fn message(&self) -> (r: String)
        ensures
            match self {
                DesktopError::Parse => r@ == "file is not a well-formed desktop entry"@,
                DesktopError::Structure => r@
                    == "expected exactly one section, named [Desktop Entry]"@,
                DesktopError::MissingAttribute => r@ == "no MimeType attribute in section"@,
                DesktopError::MalformedMediaType(t) => r@ == "malformed media type: "@ + t@,
            },
    {
        match self {
            DesktopError::Parse => String::from_str("file is not a well-formed desktop entry"),
            DesktopError::Structure => String::from_str(
                "expected exactly one section, named [Desktop Entry]",
            ),
            DesktopError::MissingAttribute => String::from_str("no MimeType attribute in section"),
            DesktopError::MalformedMediaType(t) => {
                let mut m = String::from_str("malformed media type: ");
                m.append(t.as_str());
                m
            },
        }
    }
}

/// Whether a document passes the structural check: exactly one section,
/// named `Desktop Entry`.
pub open spec fn doc_valid(dm: DocModel) -> bool {
    dm.len() == 1 && dm[0].0 == desktop_entry_name()
}

/// Asserts that the document holds exactly one section and that it is the
/// `[Desktop Entry]` section, and hands that section back.
pub fn validate(doc: &Document) -> (r: Result<&Section, DesktopError>)
    ensures
        match r {
            Ok(s) => doc_valid(doc@) && s@ == doc@[0],
            Err(e) => e@ == ErrorModel::Structure && !doc_valid(doc@),
        },
{
    if doc.sections.len() != 1 {
        return Err(DesktopError::Structure);
    }
    let s: &Section = &doc.sections[0];
    assert(s@ == doc@[0]);
    if str_eq(s.name.as_str(), "Desktop Entry") {
        Ok(s)
    } else {
        Err(DesktopError::Structure)
    }
}

} // verus!
