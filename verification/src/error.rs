//! Why a collection cannot be given a canonical order.

use vstd::prelude::*;

verus! {

/// A piece of metadata that a key cannot be built without.
#[derive(Clone, Copy, Debug, PartialEq, Eq, Structural)]
pub enum Field {
    /// The entry itself: there is nothing behind it.
    Payload,
    /// The primary artist.
    Artist,
    /// The album's release date.
    ReleaseDate,
    /// The precision of the album's release date.
    ReleaseDatePrecision,
}

/// Why an item has no key. One such item rejects the whole collection.
#[derive(Clone, Debug, PartialEq, Eq)]
pub enum ValidationError {
    /// The item cannot take part in the ordering: it is no track, and then
    /// `id` is its identity, or it is a track from local storage, and then
    /// there is no `id`.
    IneligibleItem { name: String, id: Option<String> },
    /// The item lacks `field`.
    MissingField { field: Field, item: String },
}

/// A validation error as contracts see it.
pub enum ValidationErrorView {
    IneligibleItem { name: Seq<char>, id: Option<Seq<char>> },
    MissingField { field: Field, item: Seq<char> },
}

impl View for ValidationError {
    type V = ValidationErrorView;

    open spec fn view(&self) -> ValidationErrorView {
        match self {
            ValidationError::IneligibleItem { name, id } => ValidationErrorView::IneligibleItem {
                name: name@,
                id: match id {
                    Some(id) => Some(id@),
                    None => None,
                },
            },
            ValidationError::MissingField { field, item } => ValidationErrorView::MissingField {
                field: *field,
                item: item@,
            },
        }
    }
}

impl Field {
    /// The name under which the remote store's documents carry the field.
    pub open spec fn spec_name(self) -> Seq<char> {
        match self {
            Field::Payload => "track"@,
            Field::Artist => "artists"@,
            Field::ReleaseDate => "album.release_date"@,
            Field::ReleaseDatePrecision => "album.release_date_precision"@,
        }
    }

    /// The name under which the remote store's documents carry the field.
    pub fn name(self) -> (text: &'static str)
        ensures
            text@ == self.spec_name(),
    {
        match self {
            Field::Payload => "track",
            Field::Artist => "artists",
            Field::ReleaseDate => "album.release_date",
            Field::ReleaseDatePrecision => "album.release_date_precision",
        }
    }
}

/// The sentence that tells a person about the error.
pub open spec fn message_of(e: ValidationErrorView) -> Seq<char> {
    match e {
        ValidationErrorView::IneligibleItem { name, id: Some(_) } => {
            "The playlist cannot be sorted, as it has a podcast: "@ + name
        },
        ValidationErrorView::IneligibleItem { name, id: None } => {
            "The playlist cannot be sorted, as it has a music from your storage: "@ + name
        },
        ValidationErrorView::MissingField { field, item } => {
            "The sorting process failed because the music "@ + item + " param "@
                + field.spec_name() + " is blank"@
        },
    }
}

impl ValidationError {
    /// The sentence that tells a person about the error.
    pub fn message(&self) -> (text: String)
        ensures
            text@ == message_of(self@),
    {
        match self {
            ValidationError::IneligibleItem { name, id: Some(_) } => {
                let mut text = String::from_str(
                    "The playlist cannot be sorted, as it has a podcast: ",
                );
                text.append(name.as_str());
                text
            },
            ValidationError::IneligibleItem { name, id: None } => {
                let mut text = String::from_str(
                    "The playlist cannot be sorted, as it has a music from your storage: ",
                );
                text.append(name.as_str());
                text
            },
            ValidationError::MissingField { field, item } => {
                let mut text = String::from_str("The sorting process failed because the music ");
                text.append(item.as_str());
                text.append(" param ");
                text.append(field.name());
                text.append(" is blank");
                text
            },
        }
    }
}

} // verus!
