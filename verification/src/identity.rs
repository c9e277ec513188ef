//! IEEE 1284 printer device identifiers.
use crate::scan::{
    is_piece, lemma_length_before, lemma_length_before_unique, lemma_separators_grow,
    length_before, occurs_at, pieces_stand_between_separators, separator_from, separators_before,
    split_at_separator, split_text, text_between, texts_are_split_at_separators,
};
use crate::text::{characters, text_of};
use crate::text_map::{texts, TextMap};
use vstd::prelude::*;
use vstd::utf8::is_ascii_chars;

verus! {

/// An IEEE 1284 printer device identifier.
#[derive(Clone, Debug, PartialEq, Eq)]
pub struct PrinterIdentity {
    fields: TextMap<String>,
    command_set: Vec<String>,
}

/// The contents of an identifier.
pub struct IdentityView {
    /// The values of the fields by their names.
    pub fields: Map<Seq<char>, Seq<char>>,
    /// The languages that the printer understands.
    pub command_set: Seq<Seq<char>>,
}

impl View for PrinterIdentity {
    type V = IdentityView;

    closed spec fn view(&self) -> IdentityView {
        IdentityView {
            fields: self.fields@.map_values(|value: String| value@),
            command_set: texts(self.command_set@),
        }
    }
}

/// A malformed printer device identifier. It has no `Debug` form that could repeat
/// the field; `redacted` takes its place.
#[derive(Clone, PartialEq, Eq)]
pub enum IdentityParseError {
    NonAscii,
    MalformedField { field: String },
}

/// The contents of an identifier error.
pub enum IdentityErrorView {
    NonAscii,
    MalformedField { field: Seq<char> },
}

impl View for IdentityParseError {
    type V = IdentityErrorView;

    open spec fn view(&self) -> IdentityErrorView {
        match *self {
            IdentityParseError::NonAscii => IdentityErrorView::NonAscii,
            IdentityParseError::MalformedField { field } => IdentityErrorView::MalformedField {
                field: field@,
            },
        }
    }
}

/// The fields with one more entry; an empty entry adds nothing, and one without
/// a name before a colon is malformed.
pub open spec fn with_entry(fields: Map<Seq<char>, Seq<char>>, entry: Seq<char>) -> Result<
    Map<Seq<char>, Seq<char>>,
    IdentityErrorView,
> {
    let name = length_before(entry, ':');
    if entry.len() == 0 {
        Ok(fields)
    } else if name == 0 || name >= entry.len() {
        Err(IdentityErrorView::MalformedField { field: entry })
    } else {
        Ok(fields.insert(entry.take(name as int), entry.skip(name as int + 1)))
    }
}

/// The fields of several entries, or the first malformed one.
pub open spec fn entry_fields(entries: Seq<Seq<char>>) -> Result<
    Map<Seq<char>, Seq<char>>,
    IdentityErrorView,
>
    decreases entries.len(),
{
    if entries.len() == 0 {
        Ok(Map::empty())
    } else {
        match entry_fields(entries.drop_last()) {
            Err(error) => Err(error),
            Ok(fields) => with_entry(fields, entries.last()),
        }
    }
}

/// The fields with the value of a long name, if there is one, under a short name too.
pub open spec fn with_alias(
    fields: Map<Seq<char>, Seq<char>>,
    long_name: Seq<char>,
    short_name: Seq<char>,
) -> Map<Seq<char>, Seq<char>> {
    if fields.contains_key(long_name) {
        fields.insert(short_name, fields[long_name])
    } else {
        fields
    }
}

/// The fields with the short names of the standard fields.
pub open spec fn with_aliases(fields: Map<Seq<char>, Seq<char>>) -> Map<Seq<char>, Seq<char>> {
    with_alias(
        with_alias(with_alias(fields, "MANUFACTURER"@, "MFG"@), "MODEL"@, "MDL"@),
        "COMMAND SET"@,
        "CMD"@,
    )
}

/// The identifier that a text stands for, or what is wrong with it.
pub open spec fn identity_of(identifier: Seq<char>) -> Result<IdentityView, IdentityErrorView> {
    if !is_ascii_chars(identifier) {
        Err(IdentityErrorView::NonAscii)
    } else {
        match entry_fields(split_text(identifier, ';')) {
            Err(error) => Err(error),
            Ok(fields) => {
                let named = with_aliases(fields);
                Ok(
                    IdentityView {
                        fields: named,
                        command_set: if named.contains_key("CMD"@) {
                            split_text(named["CMD"@], ',')
                        } else {
                            seq![]
                        },
                    },
                )
            },
        }
    }
}

/// The value of a field.
pub open spec fn field_of_identity(identity: IdentityView, name: Seq<char>) -> Option<Seq<char>> {
    named_field(identity.fields, name)
}

/// The model name without the word that Epson appends to it.
pub open spec fn base_model(model: Seq<char>) -> Seq<char> {
    let suffix = " Series"@;
    if model.len() >= suffix.len() && occurs_at(model, suffix, model.len() - suffix.len()) {
        model.take(model.len() - suffix.len())
    } else {
        model
    }
}

/// The name under which a model may be found in the database.
pub open spec fn detected_model_of(identity: IdentityView) -> Option<Seq<char>> {
    match field_of_identity(identity, "MDL"@) {
        Some(model) => Some(base_model(model)),
        None => None,
    }
}

/// An optional text says what a specified one says.
pub open spec fn same_optional(text: Option<&String>, expected: Option<Seq<char>>) -> bool {
    match (text, expected) {
        (Some(text), Some(expected)) => text@ == expected,
        (None, None) => true,
        _ => false,
    }
}

impl Default for PrinterIdentity {
    /// An identifier without fields.
    fn default() -> (identity: Self)
        ensures
            identity.well_formed(),
            identity@ == (IdentityView { fields: Map::empty(), command_set: seq![] }),
    {
        let identity = PrinterIdentity { fields: TextMap::new(), command_set: Vec::new() };
        proof {
            assert(identity@.fields =~= Map::empty());
            assert(identity@.command_set =~= seq![]);
        }
        identity
    }
}

impl PrinterIdentity {
    /// Each field is listed once, in the order of the names.
    pub closed spec fn well_formed(&self) -> bool {
        self.fields.well_formed()
    }

    /// Parses the semicolon-delimited IEEE 1284 identifier returned by a printer.
    pub fn parse(identifier: &str) -> (identity: Result<Self, IdentityParseError>)
        ensures
            match (identity, identity_of(identifier@)) {
                (Ok(identity), Ok(expected)) => identity@ == expected && identity.well_formed(),
                (Err(error), Err(expected)) => error@ == expected,
                _ => false,
            },
    {
        if !identifier.is_ascii() {
            return Err(IdentityParseError::NonAscii);
        }
        let entries = split_at_separator(identifier, ';');
        let ghost pieces = split_text(identifier@, ';');
        let mut identity = PrinterIdentity::default();
        let mut index: usize = 0;
        proof {
            assert(pieces.take(0) =~= seq![]);
        }
        while index < entries.len()
            invariant
                index <= entries@.len(),
                is_ascii_chars(identifier@),
                pieces == split_text(identifier@, ';'),
                texts(entries@) == pieces,
                identity.well_formed(),
                identity@.command_set == Seq::<Seq<char>>::empty(),
                entry_fields(pieces.take(index as int)) == Ok::<
                    Map<Seq<char>, Seq<char>>,
                    IdentityErrorView,
                >(identity@.fields),
            decreases entries.len() - index,
        {
            let entry = characters(entries[index].as_str());
            proof {
                let longer = pieces.take(index + 1);
                assert(longer.drop_last() =~= pieces.take(index as int));
                assert(texts(entries@)[index as int] == entry@);
                assert(longer.last() == entry@);
                assert(entry@.skip(0) =~= entry@);
            }
            if entry.len() > 0 {
                let colon: usize = separator_from(entry.as_slice(), 0, ':');
                if colon == 0 || colon >= entry.len() {
                    proof {
                        lemma_first_entry_error(pieces, index + 1);
                    }
                    return Err(
                        IdentityParseError::MalformedField { field: text_of(entry.as_slice()) },
                    );
                }
                let name = text_between(entry.as_slice(), 0, colon);
                let value = text_between(entry.as_slice(), colon + 1, entry.len());
                proof {
                    assert(name@ =~= entry@.take(colon as int));
                    assert(value@ =~= entry@.skip(colon + 1));
                }
                identity.set_field(name, value);
            }
            index = index + 1;
        }
        proof {
            assert(pieces.take(index as int) =~= pieces);
        }
        identity.add_alias("MANUFACTURER", "MFG");
        identity.add_alias("MODEL", "MDL");
        identity.add_alias("COMMAND SET", "CMD");
        let commands = match identity.field("CMD") {
            Some(commands) => split_at_separator(commands.as_str(), ','),
            None => Vec::new(),
        };
        let ghost fields = identity@.fields;
        identity.command_set = commands;
        proof {
            assert(identity@.fields == fields);
            assert(identity@.command_set =~= identity_of(identifier@)->Ok_0.command_set);
        }
        Ok(identity)
    }

    fn set_field(&mut self, name: String, value: String)
        requires
            old(self).well_formed(),
        ensures
            final(self).well_formed(),
            final(self)@ == (IdentityView {
                fields: old(self)@.fields.insert(name@, value@),
                ..old(self)@
            }),
    {
        self.fields.insert(name, value);
        proof {
            assert(self@.fields =~= old(self)@.fields.insert(name@, value@));
        }
    }

    fn add_alias(&mut self, long_name: &str, short_name: &str)
        requires
            old(self).well_formed(),
        ensures
            final(self).well_formed(),
            final(self)@ == (IdentityView {
                fields: with_alias(old(self)@.fields, long_name@, short_name@),
                ..old(self)@
            }),
    {
        let value: Option<String> = match self.field(long_name) {
            Some(value) => Some(value.clone()),
            None => None,
        };
        if let Some(value) = value {
            self.set_field(short_name.to_owned(), value);
        }
    }

    /// The value of a field.
    pub fn field(&self, name: &str) -> (value: Option<&String>)
        requires
            self.well_formed(),
        ensures
            same_optional(value, field_of_identity(self@, name@)),
    {
        self.fields.get(name)
    }

    pub fn manufacturer(&self) -> (value: Option<&String>)
        requires
            self.well_formed(),
        ensures
            same_optional(value, field_of_identity(self@, "MFG"@)),
    {
        self.field("MFG")
    }

    pub fn model(&self) -> (value: Option<&String>)
        requires
            self.well_formed(),
        ensures
            same_optional(value, field_of_identity(self@, "MDL"@)),
    {
        self.field("MDL")
    }

    /// Returns the Epson database model candidate.
    ///
    /// Epson IEEE 1284 IDs commonly append ` Series`, while the model database
    /// stores the base model name.
    pub fn detected_model(&self) -> (model: Option<String>)
        requires
            self.well_formed(),
        ensures
            match (model, detected_model_of(self@)) {
                (Some(model), Some(expected)) => model@ == expected,
                (None, None) => true,
                _ => false,
            },
    {
        match self.model() {
            None => None,
            Some(model) => {
                let chars = characters(model.as_str());
                let suffix = characters(" Series");
                if chars.len() >= suffix.len() {
                    let length: usize = chars.len() - suffix.len();
                    let tail = vstd::slice::slice_subrange(chars.as_slice(), length, chars.len());
                    proof {
                        assert(chars@.subrange(length as int, length + suffix@.len())
                            =~= tail@);
                        assert(tail@.subrange(0, tail@.len() as int) =~= tail@);
                    }
                    if crate::scan::starts_with_chars(tail, suffix.as_slice()) {
                        let base = text_between(chars.as_slice(), 0, length);
                        proof {
                            assert(base@ =~= model@.take(length as int));
                        }
                        return Some(base);
                    }
                }
                Some(model.clone())
            },
        }
    }

    pub fn serial_number(&self) -> (value: Option<&String>)
        requires
            self.well_formed(),
        ensures
            same_optional(value, field_of_identity(self@, "SN"@)),
    {
        self.field("SN")
    }

    pub fn command_set(&self) -> (commands: &Vec<String>)
        ensures
            texts(commands@) == self@.command_set,
    {
        &self.command_set
    }

    /// The fields, in ascending order of their names.
    pub fn fields(&self) -> (fields: &TextMap<String>)
        requires
            self.well_formed(),
        ensures
            fields.well_formed(),
            fields@.map_values(|value: String| value@) == self@.fields,
    {
        &self.fields
    }
}

proof fn lemma_first_entry_error(entries: Seq<Seq<char>>, length: int)
    requires
        0 <= length <= entries.len(),
        entry_fields(entries.take(length)) is Err,
    ensures
        entry_fields(entries) == entry_fields(entries.take(length)),
    decreases entries.len(),
{
    if length == entries.len() {
        assert(entries.take(length) =~= entries);
    } else {
        assert(entries.drop_last().take(length) =~= entries.take(length));
        lemma_first_entry_error(entries.drop_last(), length);
    }
}

/// The words for an identifier error. They do not repeat what the identifier holds.
pub open spec fn identity_error_text(error: IdentityErrorView) -> Seq<char> {
    match error {
        IdentityErrorView::NonAscii => "IEEE 1284 device ID is not ASCII"@,
        IdentityErrorView::MalformedField { .. } => "malformed IEEE 1284 device ID field"@,
    }
}

impl IdentityParseError {
    /// Describes the error without repeating what the identifier holds.
    pub fn message(&self) -> (text: String)
        ensures
            text@ == identity_error_text(self@),
    {
        match self {
            IdentityParseError::NonAscii => String::from_str("IEEE 1284 device ID is not ASCII"),
            IdentityParseError::MalformedField { .. } => String::from_str(
                "malformed IEEE 1284 device ID field",
            ),
        }
    }

    /// Names the error for debugging without repeating what the identifier holds.
    pub fn redacted(&self) -> (text: String)
        ensures
            text@ == (match *self {
                IdentityParseError::NonAscii => "NonAscii"@,
                IdentityParseError::MalformedField { .. } => "MalformedField(<redacted>)"@,
            }),
    {
        match self {
            IdentityParseError::NonAscii => String::from_str("NonAscii"),
            IdentityParseError::MalformedField { .. } => String::from_str(
                "MalformedField(<redacted>)",
            ),
        }
    }
}

/// What an identifier error says does not depend on the identifier, so a serial
/// number in a malformed field is never repeated.
pub proof fn identity_errors_are_redacted(left: Seq<char>, right: Seq<char>)
    ensures
        identity_error_text(IdentityErrorView::MalformedField { field: left })
            == identity_error_text(IdentityErrorView::MalformedField { field: right }),
{
}

/// What a field holds, if there is such a field.
pub open spec fn named_field(fields: Map<Seq<char>, Seq<char>>, name: Seq<char>) -> Option<
    Seq<char>,
> {
    if fields.contains_key(name) {
        Some(fields[name])
    } else {
        None
    }
}

/// What the field of a long name holds, and without it that of a short one.
pub open spec fn either(
    fields: Map<Seq<char>, Seq<char>>,
    long_name: Seq<char>,
    short_name: Seq<char>,
) -> Option<Seq<char>> {
    match named_field(fields, long_name) {
        Some(value) => Some(value),
        None => named_field(fields, short_name),
    }
}

/// A standard field is found under its short name whichever name the printer
/// uses; the long name prevails where both are given. No other field is touched.
pub proof fn long_names_prevail(fields: Map<Seq<char>, Seq<char>>)
    ensures
        named_field(with_aliases(fields), "MFG"@) == either(fields, "MANUFACTURER"@, "MFG"@),
        named_field(with_aliases(fields), "MDL"@) == either(fields, "MODEL"@, "MDL"@),
        named_field(with_aliases(fields), "CMD"@) == either(fields, "COMMAND SET"@, "CMD"@),
        forall|name: Seq<char>|
            name != "MFG"@ && name != "MDL"@ && name != "CMD"@ ==> named_field(
                with_aliases(fields),
                name,
            ) == #[trigger] named_field(fields, name),
{
    reveal_strlit("MANUFACTURER");
    reveal_strlit("MFG");
    reveal_strlit("MODEL");
    reveal_strlit("MDL");
    reveal_strlit("COMMAND SET");
    reveal_strlit("CMD");
    assert("MDL"@[0] != "CMD"@[0]);
    assert("MDL"@[1] != "MFG"@[1]);
    assert("MFG"@[0] != "CMD"@[0]);
    assert("MODEL"@.len() != "MFG"@.len());
    assert("COMMAND SET"@.len() != "MFG"@.len());
    assert("COMMAND SET"@.len() != "MDL"@.len());
}

/// A text begins with a name and a colon, and a value follows.
pub open spec fn names_value(entry: Seq<char>, name: Seq<char>, value: Seq<char>) -> bool {
    &&& name.len() > 0
    &&& forall|i: int| 0 <= i < name.len() ==> #[trigger] name[i] != ':'
    &&& entry == name.push(':') + value
}

/// Between two semicolons of an identifier, or between one and an end of it, stands
/// a name with a value.
pub open spec fn entry_at(
    identifier: Seq<char>,
    start: int,
    end: int,
    name: Seq<char>,
    value: Seq<char>,
) -> bool {
    &&& is_piece(identifier, ';', start, end)
    &&& names_value(identifier.subrange(start, end), name, value)
}

/// An entry of a name that no later entry of the same name follows.
pub open spec fn last_entry_at(
    identifier: Seq<char>,
    start: int,
    end: int,
    name: Seq<char>,
    value: Seq<char>,
) -> bool {
    &&& entry_at(identifier, start, end, name, value)
    &&& forall|later: int, next: int, other: Seq<char>|
        later > start ==> !#[trigger] entry_at(identifier, later, next, name, other)
}

/// Somewhere in an identifier a name is given the value.
pub open spec fn gives(identifier: Seq<char>, name: Seq<char>, value: Seq<char>) -> bool {
    exists|start: int, end: int| #[trigger] last_entry_at(identifier, start, end, name, value)
}

proof fn lemma_names_value(entry: Seq<char>, name: Seq<char>, value: Seq<char>)
    requires
        names_value(entry, name, value),
    ensures
        length_before(entry, ':') == name.len(),
        entry.len() > name.len(),
        entry.take(name.len() as int) == name,
        entry.skip(name.len() as int + 1) == value,
{
    assert(entry[name.len() as int] == ':');
    assert forall|i: int| 0 <= i < name.len() implies #[trigger] entry[i] != ':' by {
        assert(entry[i] == name[i]);
    }
    lemma_length_before_unique(entry, ':', name.len() as int);
    assert(entry.take(name.len() as int) =~= name);
    assert(entry.skip(name.len() as int + 1) =~= value);
}

proof fn lemma_entry_kept(entries: Seq<Seq<char>>, index: int, name: Seq<char>, value: Seq<char>)
    requires
        entry_fields(entries) is Ok,
        0 <= index < entries.len(),
        names_value(entries[index], name, value),
        forall|later: int, other: Seq<char>|
            index < later < entries.len() ==> !#[trigger] names_value(entries[later], name, other),
    ensures
        named_field(entry_fields(entries)->Ok_0, name) == Some(value),
    decreases entries.len(),
{
    let last = entries.last();
    if index == entries.len() - 1 {
        lemma_names_value(last, name, value);
    } else {
        let rest = entries.drop_last();
        assert forall|later: int, other: Seq<char>| index < later < rest.len() implies
            !#[trigger] names_value(rest[later], name, other) by {
            assert(!names_value(entries[later], name, other));
        }
        lemma_entry_kept(rest, index, name, value);
        if last.len() > 0 {
            let length = length_before(last, ':') as int;
            lemma_length_before(last, ':');
            let other = last.skip(length + 1);
            if last.take(length) == name {
                assert(last =~= name.push(':') + other);
                assert forall|i: int| 0 <= i < name.len() implies #[trigger] name[i] != ':' by {
                    assert(last[i] == name[i]);
                }
                assert(names_value(entries[entries.len() - 1], name, other));
            }
        }
    }
}

proof fn lemma_field_given(entries: Seq<Seq<char>>, name: Seq<char>) -> (index: int)
    requires
        entry_fields(entries) is Ok,
        entry_fields(entries)->Ok_0.contains_key(name),
    ensures
        0 <= index < entries.len(),
        names_value(entries[index], name, entry_fields(entries)->Ok_0[name]),
        forall|later: int, other: Seq<char>|
            index < later < entries.len() ==> !#[trigger] names_value(entries[later], name, other),
    decreases entries.len(),
{
    let last = entries.last();
    let length = length_before(last, ':') as int;
    lemma_length_before(last, ':');
    let other = last.skip(length + 1);
    if last.len() > 0 && last.take(length) == name {
        assert(last =~= name.push(':') + other);
        assert forall|i: int| 0 <= i < name.len() implies #[trigger] name[i] != ':' by {
            assert(last[i] == name[i]);
        }
        entries.len() - 1
    } else {
        let rest = entries.drop_last();
        let index = lemma_field_given(rest, name);
        assert forall|later: int, any: Seq<char>| index < later < entries.len() implies
            !#[trigger] names_value(entries[later], name, any) by {
            if later < rest.len() {
                assert(!names_value(rest[later], name, any));
            } else if names_value(last, name, any) {
                lemma_names_value(last, name, any);
            }
        }
        index
    }
}

proof fn lemma_entry_order(
    identifier: Seq<char>,
    start: int,
    end: int,
    name: Seq<char>,
    value: Seq<char>,
) -> (index: int)
    requires
        last_entry_at(identifier, start, end, name, value),
    ensures
        0 <= index < split_text(identifier, ';').len(),
        names_value(split_text(identifier, ';')[index], name, value),
        forall|later: int, other: Seq<char>|
            index < later < split_text(identifier, ';').len() ==> !#[trigger] names_value(
                split_text(identifier, ';')[later],
                name,
                other,
            ),
{
    texts_are_split_at_separators(identifier, ';', start, end);
    let index = separators_before(identifier, ';', start) as int;
    let pieces = split_text(identifier, ';');
    assert forall|later: int, other: Seq<char>| index < later < pieces.len() implies
        !#[trigger] names_value(pieces[later], name, other) by {
        let bounds = pieces_stand_between_separators(identifier, ';', later);
        if bounds.0 <= start {
            lemma_separators_grow(identifier, ';', bounds.0, start);
        }
        assert(!entry_at(identifier, bounds.0, bounds.1, name, other));
    }
    index
}

proof fn lemma_entry_standing(
    identifier: Seq<char>,
    index: int,
    name: Seq<char>,
    value: Seq<char>,
)
    requires
        0 <= index < split_text(identifier, ';').len(),
        names_value(split_text(identifier, ';')[index], name, value),
        forall|later: int, other: Seq<char>|
            index < later < split_text(identifier, ';').len() ==> !#[trigger] names_value(
                split_text(identifier, ';')[later],
                name,
                other,
            ),
    ensures
        gives(identifier, name, value),
{
    let pieces = split_text(identifier, ';');
    let bounds = pieces_stand_between_separators(identifier, ';', index);
    assert forall|later: int, next: int, other: Seq<char>| later > bounds.0 implies
        !#[trigger] entry_at(identifier, later, next, name, other) by {
        if entry_at(identifier, later, next, name, other) {
            texts_are_split_at_separators(identifier, ';', later, next);
            lemma_separators_grow(identifier, ';', bounds.0, later);
            let place = separators_before(identifier, ';', later) as int;
            assert(!names_value(pieces[place], name, other));
        }
    }
    assert(last_entry_at(identifier, bounds.0, bounds.1, name, value));
}

proof fn lemma_given(identifier: Seq<char>, name: Seq<char>)
    requires
        entry_fields(split_text(identifier, ';')) is Ok,
    ensures
        forall|value: Seq<char>|
            #[trigger] gives(identifier, name, value) <==> named_field(
                entry_fields(split_text(identifier, ';'))->Ok_0,
                name,
            ) == Some(value),
{
    let entries = split_text(identifier, ';');
    let fields = entry_fields(entries)->Ok_0;
    assert forall|value: Seq<char>| #[trigger]
        gives(identifier, name, value) implies named_field(fields, name) == Some(value) by {
        let (start, end) = choose|start: int, end: int|
            #[trigger] last_entry_at(identifier, start, end, name, value);
        let index = lemma_entry_order(identifier, start, end, name, value);
        lemma_entry_kept(entries, index, name, value);
    }
    if fields.contains_key(name) {
        let index = lemma_field_given(entries, name);
        lemma_entry_standing(identifier, index, name, fields[name]);
    }
}

/// Every entry of an identifier, whatever its name, is a field with its value, and
/// the last entry of a name counts. Only the short names of the manufacturer, the
/// model and the command set take their value from the long names, where those are
/// given. There is no field besides.
pub proof fn fields_are_the_entries(identifier: Seq<char>, identity: IdentityView, name: Seq<char>)
    requires
        identity_of(identifier) == Ok::<IdentityView, IdentityErrorView>(identity),
    ensures
        name != "MFG"@ && name != "MDL"@ && name != "CMD"@ ==> (forall|value: Seq<char>|
            #[trigger] gives(identifier, name, value) <==> field_of_identity(identity, name)
                == Some(value)),
        forall|value: Seq<char>|
            #[trigger] gives(identifier, "MANUFACTURER"@, value) ==> field_of_identity(
                identity,
                "MFG"@,
            ) == Some(value),
        forall|value: Seq<char>|
            #[trigger] gives(identifier, "MODEL"@, value) ==> field_of_identity(identity, "MDL"@)
                == Some(value),
        forall|value: Seq<char>|
            #[trigger] gives(identifier, "COMMAND SET"@, value) ==> field_of_identity(
                identity,
                "CMD"@,
            ) == Some(value),
        (forall|other: Seq<char>| !#[trigger] gives(identifier, "MANUFACTURER"@, other)) ==> (
        forall|value: Seq<char>|
            #[trigger] gives(identifier, "MFG"@, value) <==> field_of_identity(identity, "MFG"@)
                == Some(value)),
        (forall|other: Seq<char>| !#[trigger] gives(identifier, "MODEL"@, other)) ==> (forall|
            value: Seq<char>,
        |
            #[trigger] gives(identifier, "MDL"@, value) <==> field_of_identity(identity, "MDL"@)
                == Some(value)),
        (forall|other: Seq<char>| !#[trigger] gives(identifier, "COMMAND SET"@, other)) ==> (
        forall|value: Seq<char>|
            #[trigger] gives(identifier, "CMD"@, value) <==> field_of_identity(identity, "CMD"@)
                == Some(value)),
{
    let fields = entry_fields(split_text(identifier, ';'))->Ok_0;
    long_names_prevail(fields);
    lemma_given(identifier, name);
    lemma_given(identifier, "MANUFACTURER"@);
    lemma_given(identifier, "MFG"@);
    lemma_given(identifier, "MODEL"@);
    lemma_given(identifier, "MDL"@);
    lemma_given(identifier, "COMMAND SET"@);
    lemma_given(identifier, "CMD"@);
    assert(fields.contains_key("MANUFACTURER"@) ==> gives(
        identifier,
        "MANUFACTURER"@,
        fields["MANUFACTURER"@],
    ));
    assert(fields.contains_key("MODEL"@) ==> gives(identifier, "MODEL"@, fields["MODEL"@]));
    assert(fields.contains_key("COMMAND SET"@) ==> gives(
        identifier,
        "COMMAND SET"@,
        fields["COMMAND SET"@],
    ));
    if name != "MFG"@ && name != "MDL"@ && name != "CMD"@ {
        assert(named_field(with_aliases(fields), name) == named_field(fields, name));
    }
}

/// A stretch of an identifier that is no entry: it is not empty, and no name stands
/// before a colon in it.
pub open spec fn malformed_at(identifier: Seq<char>, start: int, end: int) -> bool {
    &&& is_piece(identifier, ';', start, end)
    &&& start < end
    &&& identifier[start] == ':' || forall|i: int|
        start <= i < end ==> #[trigger] identifier[i] != ':'
}

proof fn lemma_piece_malformed(identifier: Seq<char>, start: int, end: int)
    requires
        is_piece(identifier, ';', start, end),
    ensures
        with_entry(Map::empty(), identifier.subrange(start, end)) is Err <==> malformed_at(
            identifier,
            start,
            end,
        ),
{
    let entry = identifier.subrange(start, end);
    lemma_length_before(entry, ':');
    let length = length_before(entry, ':') as int;
    if start < end {
        assert(entry[0] == identifier[start]);
        if length == 0 {
        } else if length >= entry.len() {
            assert forall|i: int| start <= i < end implies #[trigger] identifier[i] != ':' by {
                assert(entry[i - start] != ':');
            }
        } else {
            assert(identifier[start + length] == ':');
            assert(entry[0] != ':');
        }
    }
}

proof fn lemma_first_error(entries: Seq<Seq<char>>, index: int)
    requires
        0 <= index < entries.len(),
        with_entry(Map::empty(), entries[index]) is Err,
        forall|earlier: int|
            0 <= earlier < index ==> with_entry(Map::empty(), #[trigger] entries[earlier]) is Ok,
    ensures
        entry_fields(entries) == Err::<Map<Seq<char>, Seq<char>>, IdentityErrorView>(
            IdentityErrorView::MalformedField { field: entries[index] },
        ),
    decreases entries.len(),
{
    let rest = entries.drop_last();
    if index == entries.len() - 1 {
        lemma_no_error(rest);
    } else {
        lemma_first_error(rest, index);
    }
}

proof fn lemma_no_error(entries: Seq<Seq<char>>)
    requires
        forall|index: int|
            0 <= index < entries.len() ==> with_entry(Map::empty(), #[trigger] entries[index]) is Ok,
    ensures
        entry_fields(entries) is Ok,
    decreases entries.len(),
{
    if entries.len() > 0 {
        assert(with_entry(Map::empty(), entries[entries.len() - 1]) is Ok);
        let rest = entries.drop_last();
        assert forall|index: int| 0 <= index < rest.len() implies with_entry(
            Map::empty(),
            #[trigger] rest[index],
        ) is Ok by {
            assert(rest[index] == entries[index]);
        }
        lemma_no_error(rest);
    }
}

/// An identifier of ASCII characters is understood where each entry that is not
/// empty has a name before a colon.
pub proof fn proper_identifiers_are_understood(identifier: Seq<char>)
    requires
        is_ascii_chars(identifier),
        forall|start: int, end: int| !#[trigger] malformed_at(identifier, start, end),
    ensures
        identity_of(identifier) is Ok,
{
    let entries = split_text(identifier, ';');
    assert forall|index: int| 0 <= index < entries.len() implies with_entry(
        Map::empty(),
        #[trigger] entries[index],
    ) is Ok by {
        let bounds = pieces_stand_between_separators(identifier, ';', index);
        lemma_piece_malformed(identifier, bounds.0, bounds.1);
        assert(!malformed_at(identifier, bounds.0, bounds.1));
    }
    lemma_no_error(entries);
}

/// The first entry that has no name before a colon is what a malformed identifier
/// is refused with. An identifier with another than an ASCII character is refused
/// as such.
pub proof fn malformed_identifiers_are_refused(identifier: Seq<char>, start: int, end: int)
    requires
        malformed_at(identifier, start, end),
        forall|earlier: int, before: int|
            earlier < start ==> !#[trigger] malformed_at(identifier, earlier, before),
    ensures
        is_ascii_chars(identifier) ==> identity_of(identifier) == Err::<
            IdentityView,
            IdentityErrorView,
        >(IdentityErrorView::MalformedField { field: identifier.subrange(start, end) }),
        !is_ascii_chars(identifier) ==> identity_of(identifier) == Err::<
            IdentityView,
            IdentityErrorView,
        >(IdentityErrorView::NonAscii),
{
    let entries = split_text(identifier, ';');
    texts_are_split_at_separators(identifier, ';', start, end);
    lemma_piece_malformed(identifier, start, end);
    let index = separators_before(identifier, ';', start) as int;
    assert forall|earlier: int| 0 <= earlier < index implies with_entry(
        Map::empty(),
        #[trigger] entries[earlier],
    ) is Ok by {
        let bounds = pieces_stand_between_separators(identifier, ';', earlier);
        lemma_piece_malformed(identifier, bounds.0, bounds.1);
        if bounds.0 >= start {
            lemma_separators_grow(identifier, ';', start, bounds.0);
        }
        assert(!malformed_at(identifier, bounds.0, bounds.1));
    }
    lemma_first_error(entries, index);
}

/// The languages of a printer are what stands between the commas of its command
/// set, in that order; without a command set there are none.
pub proof fn languages_stand_between_commas(
    identifier: Seq<char>,
    identity: IdentityView,
    start: int,
    end: int,
)
    requires
        identity_of(identifier) == Ok::<IdentityView, IdentityErrorView>(identity),
    ensures
        match field_of_identity(identity, "CMD"@) {
            None => identity.command_set.len() == 0,
            Some(commands) => identity.command_set.len() == separators_before(
                commands,
                ',',
                commands.len() as int,
            ) + 1 && (is_piece(commands, ',', start, end) ==> identity.command_set[separators_before(
                commands,
                ',',
                start,
            ) as int] == commands.subrange(start, end)),
        },
{
    if let Some(commands) = field_of_identity(identity, "CMD"@) {
        lemma_length_before(commands, ',');
        let bounds = pieces_stand_between_separators(commands, ',', 0);
        if is_piece(commands, ',', start, end) {
            texts_are_split_at_separators(commands, ',', start, end);
        }
    }
}

/// A model name with the word that Epson appends to it.
pub open spec fn in_series(model: Seq<char>) -> Seq<char> {
    model + seq![' ', 'S', 'e', 'r', 'i', 'e', 's']
}

/// The name that a model is looked up by: the word at the end is left out once, and
/// a name that does not end with it is kept.
pub proof fn series_are_left_out(model: Seq<char>)
    ensures
        base_model(in_series(model)) == model,
        (forall|stem: Seq<char>| model != #[trigger] in_series(stem)) ==> base_model(model)
            == model,
{
    reveal_strlit(" Series");
    let word = seq![' ', 'S', 'e', 'r', 'i', 'e', 's'];
    assert(" Series"@ =~= word);
    let whole = model + word;
    assert(whole.subrange(model.len() as int, whole.len() as int) =~= word);
    assert(whole.take(model.len() as int) =~= model);
    if model.len() >= 7 && occurs_at(model, word, model.len() - 7) {
        let stem = model.take(model.len() - 7);
        assert(model =~= in_series(stem));
    }
}

} // verus!
