//! The models that are built in.
//!
//! The write keys given here are stand-ins for those of real printers.
use crate::database::{
    database_of, fields_of, latin1, latin1_of, operations_of, overlap, overlap_error,
    overlapped, spec_of, valid_models, with_models, write_key_of, ModelDatabase, RawDatabase,
    RawEepromField, RawMemoryOperation, RawSpec,
};
use crate::epson::{
    confidence_of, encoding_length, encoding_of, AddressWidth, EepromFieldConfidence,
    EepromFieldEncoding, FieldView, OperationView, SpecError, SpecErrorView, SpecView,
};
use crate::text_map::texts;
use vstd::prelude::*;

verus! {

/// The written form of an encoding.
pub open spec fn encoding_word(encoding: EepromFieldEncoding) -> Seq<char> {
    match encoding {
        EepromFieldEncoding::U8 => "u8"@,
        EepromFieldEncoding::U16Le => "u16le"@,
        EepromFieldEncoding::U32Le => "u32le"@,
        EepromFieldEncoding::Ascii => "ascii"@,
        EepromFieldEncoding::RawBytes => "raw"@,
    }
}

/// The written form of a confidence.
pub open spec fn confidence_word(confidence: EepromFieldConfidence) -> Seq<char> {
    match confidence {
        EepromFieldConfidence::Confirmed => "confirmed"@,
        EepromFieldConfidence::StronglyRelated => "strongly-related"@,
        EepromFieldConfidence::RelatedUnknown => "related-unknown"@,
    }
}

proof fn lemma_encoding_words(label: Seq<char>, encoding: EepromFieldEncoding)
    ensures
        encoding_of(label, encoding_word(encoding)) == Ok::<EepromFieldEncoding, SpecErrorView>(
            encoding,
        ),
{
    reveal_strlit("u8");
    reveal_strlit("u16le");
    reveal_strlit("u32le");
    reveal_strlit("ascii");
    reveal_strlit("raw");
    assert("u8"@.len() == 2 && "raw"@.len() == 3);
    assert("u16le"@[1] == '1' && "u32le"@[1] == '3' && "ascii"@[1] == 's');
    assert("u16le"@.len() == 5 && "u32le"@.len() == 5 && "ascii"@.len() == 5);
}

proof fn lemma_confidence_words(label: Seq<char>, confidence: EepromFieldConfidence)
    ensures
        confidence_of(label, confidence_word(confidence)) == Ok::<
            EepromFieldConfidence,
            SpecErrorView,
        >(confidence),
{
    reveal_strlit("confirmed");
    reveal_strlit("strongly-related");
    reveal_strlit("related-unknown");
    assert("confirmed"@.len() == 9);
    assert("strongly-related"@.len() == 16);
    assert("related-unknown"@.len() == 15);
}

/// An operation with declared reset values, or with none.
pub open spec fn operation(description: Seq<char>, addresses: Seq<u16>, reset: Seq<u8>) -> OperationView {
    OperationView {
        description,
        addresses,
        reset_values: reset,
        reset_values_declared: reset.len() != 0,
        minimum: None,
    }
}

fn add_operation(
    operations: &mut Vec<RawMemoryOperation>,
    description: &str,
    addresses: Vec<u16>,
    reset: Vec<u8>,
)
    requires
        operations_of(old(operations)@) is Ok,
        addresses@.len() > 0,
        reset@.len() == 0 || reset@.len() == addresses@.len(),
    ensures
        operations_of(final(operations)@) == Ok::<Seq<OperationView>, SpecErrorView>(
            operations_of(old(operations)@)->Ok_0.push(
                operation(description@, addresses@, reset@),
            ),
        ),
{
    operations.push(
        RawMemoryOperation { addr: addresses, desc: description.to_owned(), reset, min: None },
    );
    proof {
        assert(operations@.drop_last() =~= old(operations)@);
    }
}

/// A field of known place and meaning.
pub open spec fn field(
    place: (u16, u16),
    label: Seq<char>,
    encoding: EepromFieldEncoding,
    confidence: EepromFieldConfidence,
    note: Seq<char>,
    sensitive: bool,
) -> FieldView {
    FieldView {
        address: place.0,
        end_address: place.1,
        label,
        encoding,
        confidence,
        evidence_note: note,
        sensitive,
    }
}

fn add_field(
    fields: &mut Vec<RawEepromField>,
    high: u16,
    place: (u16, u16),
    label: &str,
    encoding: EepromFieldEncoding,
    confidence: EepromFieldConfidence,
    note: &str,
    sensitive: bool,
)
    requires
        fields_of(old(fields)@, 0, high) is Ok,
        place.0 <= place.1 <= high,
        encoding_length(encoding) matches Some(length) ==> length == place.1 - place.0 + 1,
    ensures
        fields_of(final(fields)@, 0, high) == Ok::<Seq<FieldView>, SpecErrorView>(
            fields_of(old(fields)@, 0, high)->Ok_0.push(
                field(place, label@, encoding, confidence, note@, sensitive),
            ),
        ),
{
    let encoding_name: &'static str = match encoding {
        EepromFieldEncoding::U8 => "u8",
        EepromFieldEncoding::U16Le => "u16le",
        EepromFieldEncoding::U32Le => "u32le",
        EepromFieldEncoding::Ascii => "ascii",
        EepromFieldEncoding::RawBytes => "raw",
    };
    let confidence_name: &'static str = match confidence {
        EepromFieldConfidence::Confirmed => "confirmed",
        EepromFieldConfidence::StronglyRelated => "strongly-related",
        EepromFieldConfidence::RelatedUnknown => "related-unknown",
    };
    fields.push(
        RawEepromField {
            address: None,
            range: Some(place),
            label: label.to_owned(),
            encoding: encoding_name.to_owned(),
            confidence: confidence_name.to_owned(),
            evidence: note.to_owned(),
            sensitive,
        },
    );
    proof {
        assert(fields@.drop_last() =~= old(fields)@);
        lemma_encoding_words(label@, encoding);
        lemma_confidence_words(label@, confidence);
    }
}

/// The settings of a model that keeps its EEPROM from address zero on.
pub open spec fn settings_of(
    model: Seq<char>,
    read_key: u16,
    write_key: Option<Seq<u8>>,
    read_address_width: AddressWidth,
    memory_high: u16,
    memory_operations: Seq<OperationView>,
    read_only_fields: Seq<FieldView>,
) -> SpecView {
    SpecView {
        model,
        brand: "EPSON"@,
        vendor_id: 0x04b8,
        product_id: None,
        read_key,
        write_key,
        shifted_write_key: None,
        read_address_width,
        write_address_width: AddressWidth::Two,
        memory_low: 0,
        memory_high,
        memory_operations,
        read_only_fields,
    }
}

fn group(
    model: &str,
    read_key: u16,
    write_key: Option<String>,
    read_address_width: AddressWidth,
    memory_high: u16,
    mem: Vec<RawMemoryOperation>,
    read_only_fields: Vec<RawEepromField>,
) -> (raw: RawSpec)
    requires
        write_key_of(write_key) is Ok,
        operations_of(mem@) is Ok,
        fields_of(read_only_fields@, 0, memory_high) is Ok,
        overlap_error(fields_of(read_only_fields@, 0, memory_high)->Ok_0) is None,
    ensures
        texts(raw.models@) == seq![model@],
        forall|name: Seq<char>| #[trigger]
            spec_of(raw, name) == Ok::<SpecView, SpecErrorView>(
                settings_of(
                    name,
                    read_key,
                    write_key_of(write_key)->Ok_0,
                    read_address_width,
                    memory_high,
                    operations_of(mem@)->Ok_0,
                    fields_of(read_only_fields@, 0, memory_high)->Ok_0,
                ),
            ),
{
    let read_length: u8 = match read_address_width {
        AddressWidth::One => 1,
        AddressWidth::Two => 2,
    };
    let models: Vec<String> = vec![model.to_owned()];
    proof {
        assert(texts(models@) =~= seq![model@]);
    }
    RawSpec {
        brand: None,
        vendor_id: None,
        product_id: None,
        rkey: read_key,
        write_key,
        shifted_write_key: None,
        read_length,
        write_length: 2,
        memory_low: 0,
        memory_high,
        mem,
        read_only_fields,
        models,
    }
}

/// The stand-in for a write key.
pub open spec fn stand_in_key() -> Seq<u8> {
    latin1_of("STAND-IN"@)
}

fn stand_in() -> (key: Option<String>)
    ensures
        write_key_of(key) == Ok::<Option<Seq<u8>>, SpecErrorView>(Some(stand_in_key())),
{
    let key = String::from_str("STAND-IN");
    proof {
        reveal_strlit("STAND-IN");
        assert(key@.len() == 8);
        assert(latin1(key@));
    }
    Some(key)
}

/// The settings of the C90.
pub open spec fn c90() -> SpecView {
    settings_of(
        "C90"@,
        0x0006,
        Some(stand_in_key()),
        AddressWidth::One,
        0xff,
        seq![
            operation(
                "Waste counter"@,
                seq![0x06u16, 0x07, 0x0a, 0x0b, 0x16, 0x17],
                seq![0u8, 0, 0, 0, 0, 0],
            ),
            operation(
                "Waste counter limit"@,
                seq![0x34u16, 0x35, 0x0c, 0x0d],
                seq![0x04u8, 0x57, 0x01, 0xf4],
            ),
        ],
        seq![],
    )
}

fn raw_c90() -> (raw: RawSpec)
    ensures
        texts(raw.models@) == seq!["C90"@],
        spec_of(raw, "C90"@) == Ok::<SpecView, SpecErrorView>(c90()),
        spec_of(raw, seq![]) is Ok,
{
    let mut mem: Vec<RawMemoryOperation> = Vec::new();
    let fields: Vec<RawEepromField> = Vec::new();
    add_operation(
        &mut mem,
        "Waste counter",
        vec![0x06, 0x07, 0x0a, 0x0b, 0x16, 0x17],
        vec![0, 0, 0, 0, 0, 0],
    );
    add_operation(
        &mut mem,
        "Waste counter limit",
        vec![0x34, 0x35, 0x0c, 0x0d],
        vec![0x04, 0x57, 0x01, 0xf4],
    );
    let raw = group("C90", 0x0006, stand_in(), AddressWidth::One, 0xff, mem, fields);
    proof {
        assert(spec_of(raw, "C90"@)->Ok_0.memory_operations =~= c90().memory_operations);
    }
    raw
}

/// The settings of the XP-352.
pub open spec fn xp_352() -> SpecView {
    settings_of(
        "XP-352"@,
        0x0000,
        None,
        AddressWidth::Two,
        0xff,
        seq![operation("Waste counter"@, seq![0x06u16, 0x07], seq![])],
        seq![],
    )
}

fn raw_xp_352() -> (raw: RawSpec)
    ensures
        texts(raw.models@) == seq!["XP-352"@],
        spec_of(raw, "XP-352"@) == Ok::<SpecView, SpecErrorView>(xp_352()),
        spec_of(raw, seq![]) is Ok,
{
    let mut mem: Vec<RawMemoryOperation> = Vec::new();
    let fields: Vec<RawEepromField> = Vec::new();
    add_operation(&mut mem, "Waste counter", vec![0x06, 0x07], Vec::new());
    let raw = group("XP-352", 0x0000, None, AddressWidth::Two, 0xff, mem, fields);
    proof {
        assert(spec_of(raw, "XP-352"@)->Ok_0.memory_operations =~= xp_352().memory_operations);
    }
    raw
}

/// The settings of the XP-15000.
pub open spec fn xp_15000() -> SpecView {
    settings_of(
        "XP-15000"@,
        0x0000,
        None,
        AddressWidth::Two,
        0x1ff,
        seq![
            operation(
                "Platen pad counter"@,
                seq![0x40u16, 0x43, 0x44, 0x48, 0x1ed],
                seq![0u8, 0, 0, 0x5e, 0],
            ),
        ],
        seq![],
    )
}

fn raw_xp_15000() -> (raw: RawSpec)
    ensures
        texts(raw.models@) == seq!["XP-15000"@],
        spec_of(raw, "XP-15000"@) == Ok::<SpecView, SpecErrorView>(xp_15000()),
        spec_of(raw, seq![]) is Ok,
{
    let mut mem: Vec<RawMemoryOperation> = Vec::new();
    let fields: Vec<RawEepromField> = Vec::new();
    add_operation(
        &mut mem,
        "Platen pad counter",
        vec![0x40, 0x43, 0x44, 0x48, 0x1ed],
        vec![0, 0, 0, 0x5e, 0],
    );
    let raw = group("XP-15000", 0x0000, None, AddressWidth::Two, 0x1ff, mem, fields);
    proof {
        assert(spec_of(raw, "XP-15000"@)->Ok_0.memory_operations =~= xp_15000().memory_operations);
    }
    raw
}

/// The settings of the L1800.
pub open spec fn l1800() -> SpecView {
    settings_of(
        "L1800"@,
        0x0000,
        None,
        AddressWidth::Two,
        0x1ff,
        seq![operation("Waste counter"@, seq![0x26u16, 0x27], seq![])],
        seq![],
    )
}

fn raw_l1800() -> (raw: RawSpec)
    ensures
        texts(raw.models@) == seq!["L1800"@],
        spec_of(raw, "L1800"@) == Ok::<SpecView, SpecErrorView>(l1800()),
        spec_of(raw, seq![]) is Ok,
{
    let mut mem: Vec<RawMemoryOperation> = Vec::new();
    let fields: Vec<RawEepromField> = Vec::new();
    add_operation(&mut mem, "Waste counter", vec![0x26, 0x27], Vec::new());
    let raw = group("L1800", 0x0000, None, AddressWidth::Two, 0x1ff, mem, fields);
    proof {
        assert(spec_of(raw, "L1800"@)->Ok_0.memory_operations =~= l1800().memory_operations);
    }
    raw
}

/// The settings of the ET-14000.
pub open spec fn et_14000() -> SpecView {
    settings_of("ET-14000"@, 0x0000, None, AddressWidth::Two, 0x1ff, seq![], seq![])
}

fn raw_et_14000() -> (raw: RawSpec)
    ensures
        texts(raw.models@) == seq!["ET-14000"@],
        spec_of(raw, "ET-14000"@) == Ok::<SpecView, SpecErrorView>(et_14000()),
        spec_of(raw, seq![]) is Ok,
{
    let mem: Vec<RawMemoryOperation> = Vec::new();
    let fields: Vec<RawEepromField> = Vec::new();
    group("ET-14000", 0x0000, None, AddressWidth::Two, 0x1ff, mem, fields)
}

/// The fields of the L1300 that have been identified.
pub open spec fn l1300_fields() -> Seq<FieldView> {
    let confirmed = EepromFieldConfidence::Confirmed;
    let related = EepromFieldConfidence::StronglyRelated;
    let raw = EepromFieldEncoding::RawBytes;
    seq![
        field(
            (0x26, 0x27),
            "Waste counter"@,
            EepromFieldEncoding::U16Le,
            confirmed,
            "Observed in captures."@,
            false,
        ),
        field(
            (0x58, 0x58),
            "Waste-related byte"@,
            raw,
            EepromFieldConfidence::RelatedUnknown,
            "Read together with the waste counter."@,
            false,
        ),
        field(
            (0x16a, 0x16a),
            "First maintenance level"@,
            EepromFieldEncoding::U8,
            related,
            "Read together with the waste counter."@,
            false,
        ),
        field(
            (0x16e, 0x16e),
            "Second maintenance level"@,
            EepromFieldEncoding::U8,
            related,
            "Read together with the waste counter."@,
            false,
        ),
        field(
            (0xb0, 0xb3),
            "Total print-page count"@,
            EepromFieldEncoding::U32Le,
            confirmed,
            "Observed in captures."@,
            false,
        ),
        field(
            (0xb4, 0xb7),
            "Borderless print-page count"@,
            EepromFieldEncoding::U32Le,
            confirmed,
            "Observed in captures."@,
            false,
        ),
        field((0x4a, 0x4a), "First setup byte"@, raw, confirmed, "Observed in captures."@, false),
        field((0x5c, 0x5f), "Setup bytes"@, raw, confirmed, "Observed in captures."@, false),
        field(
            (0xc2, 0xcb),
            "Serial number"@,
            EepromFieldEncoding::Ascii,
            confirmed,
            "Device-specific."@,
            true,
        ),
        field(
            (0x82, 0x85),
            "Cleaning record"@,
            raw,
            related,
            "Changes with head cleaning."@,
            false,
        ),
        field((0x98, 0x98), "Cleaning state"@, raw, related, "Changes with head cleaning."@, false),
    ]
}

/// The settings of the L1300.
pub open spec fn l1300() -> SpecView {
    settings_of("L1300"@, 0x0832, None, AddressWidth::Two, 0x1ff, seq![], l1300_fields())
}

proof fn lemma_overlapped(fields: Seq<FieldView>, next: FieldView)
    requires
        forall|i: int| 0 <= i < fields.len() ==> !overlap(#[trigger] fields[i], next),
    ensures
        overlapped(fields, next) is None,
    decreases fields.len(),
{
    if fields.len() > 0 {
        lemma_overlapped(fields.drop_last(), next);
    }
}

proof fn lemma_apart(fields: Seq<FieldView>)
    requires
        forall|i: int, j: int|
            0 <= i < j < fields.len() ==> !overlap(#[trigger] fields[i], #[trigger] fields[j]),
    ensures
        overlap_error(fields) is None,
    decreases fields.len(),
{
    if fields.len() > 0 {
        lemma_apart(fields.drop_last());
        lemma_overlapped(fields.drop_last(), fields.last());
    }
}

fn raw_l1300_fields() -> (fields: Vec<RawEepromField>)
    ensures
        fields_of(fields@, 0, 0x1ff) == Ok::<Seq<FieldView>, SpecErrorView>(l1300_fields()),
{
    let mut fields: Vec<RawEepromField> = Vec::new();
    let confirmed = EepromFieldConfidence::Confirmed;
    let related = EepromFieldConfidence::StronglyRelated;
    let raw = EepromFieldEncoding::RawBytes;
    let word = EepromFieldEncoding::U16Le;
    let long = EepromFieldEncoding::U32Le;
    let byte = EepromFieldEncoding::U8;
    let seen = "Observed in captures.";
    let together = "Read together with the waste counter.";
    let cleaning = "Changes with head cleaning.";
    let high: u16 = 0x1ff;
    add_field(&mut fields, high, (0x26, 0x27), "Waste counter", word, confirmed, seen, false);
    add_field(
        &mut fields,
        high,
        (0x58, 0x58),
        "Waste-related byte",
        raw,
        EepromFieldConfidence::RelatedUnknown,
        together,
        false,
    );
    add_field(
        &mut fields,
        high,
        (0x16a, 0x16a),
        "First maintenance level",
        byte,
        related,
        together,
        false,
    );
    add_field(
        &mut fields,
        high,
        (0x16e, 0x16e),
        "Second maintenance level",
        byte,
        related,
        together,
        false,
    );
    add_field(
        &mut fields,
        high,
        (0xb0, 0xb3),
        "Total print-page count",
        long,
        confirmed,
        seen,
        false,
    );
    add_field(
        &mut fields,
        high,
        (0xb4, 0xb7),
        "Borderless print-page count",
        long,
        confirmed,
        seen,
        false,
    );
    add_field(&mut fields, high, (0x4a, 0x4a), "First setup byte", raw, confirmed, seen, false);
    add_field(&mut fields, high, (0x5c, 0x5f), "Setup bytes", raw, confirmed, seen, false);
    add_field(
        &mut fields,
        high,
        (0xc2, 0xcb),
        "Serial number",
        EepromFieldEncoding::Ascii,
        confirmed,
        "Device-specific.",
        true,
    );
    add_field(&mut fields, high, (0x82, 0x85), "Cleaning record", raw, related, cleaning, false);
    add_field(&mut fields, high, (0x98, 0x98), "Cleaning state", raw, related, cleaning, false);
    proof {
        assert(fields_of(fields@, 0, 0x1ff)->Ok_0 =~= l1300_fields());
    }
    fields
}

fn raw_l1300() -> (raw: RawSpec)
    ensures
        texts(raw.models@) == seq!["L1300"@],
        spec_of(raw, "L1300"@) == Ok::<SpecView, SpecErrorView>(l1300()),
        spec_of(raw, seq![]) is Ok,
{
    let mem: Vec<RawMemoryOperation> = Vec::new();
    let fields = raw_l1300_fields();
    proof {
        lemma_apart(l1300_fields());
    }
    group("L1300", 0x0832, None, AddressWidth::Two, 0x1ff, mem, fields)
}

/// The models that are built in.
pub open spec fn builtin_models() -> Map<Seq<char>, SpecView> {
    Map::empty().insert("C90"@, c90()).insert("XP-352"@, xp_352()).insert(
        "XP-15000"@,
        xp_15000(),
    ).insert("L1800"@, l1800()).insert("ET-14000"@, et_14000()).insert("L1300"@, l1300())
}

proof fn lemma_group_added(
    groups: Seq<RawSpec>,
    raw: RawSpec,
    name: Seq<char>,
    settings: SpecView,
)
    requires
        database_of(groups) is Ok,
        texts(raw.models@) == seq![name],
        spec_of(raw, name) == Ok::<SpecView, SpecErrorView>(settings),
        spec_of(raw, seq![]) is Ok,
    ensures
        database_of(groups.push(raw)) == Ok::<Map<Seq<char>, SpecView>, SpecErrorView>(
            database_of(groups)->Ok_0.insert(name, settings),
        ),
{
    let models = database_of(groups)->Ok_0;
    assert(groups.push(raw).drop_last() =~= groups);
    assert(seq![name].drop_last() =~= seq![]);
    assert(with_models(models, raw, seq![]) == models);
    assert(with_models(models, raw, seq![name]) == models.insert(name, settings));
}

impl ModelDatabase {
    /// The database of the models that are built in.
    pub fn builtin() -> (database: Result<Self, SpecError>)
        ensures
            database matches Ok(database) && database.well_formed() && valid_models(database@)
                && database@ == builtin_models(),
    {
        let mut groups: Vec<RawSpec> = Vec::new();
        proof {
            assert(database_of(groups@) == Ok::<Map<Seq<char>, SpecView>, SpecErrorView>(
                Map::empty(),
            ));
        }
        let raw = raw_c90();
        proof {
            lemma_group_added(groups@, raw, "C90"@, c90());
        }
        groups.push(raw);
        let raw = raw_xp_352();
        proof {
            lemma_group_added(groups@, raw, "XP-352"@, xp_352());
        }
        groups.push(raw);
        let raw = raw_xp_15000();
        proof {
            lemma_group_added(groups@, raw, "XP-15000"@, xp_15000());
        }
        groups.push(raw);
        let raw = raw_l1800();
        proof {
            lemma_group_added(groups@, raw, "L1800"@, l1800());
        }
        groups.push(raw);
        let raw = raw_et_14000();
        proof {
            lemma_group_added(groups@, raw, "ET-14000"@, et_14000());
        }
        groups.push(raw);
        let raw = raw_l1300();
        proof {
            lemma_group_added(groups@, raw, "L1300"@, l1300());
        }
        groups.push(raw);
        ModelDatabase::from_raw(&RawDatabase { epson: groups })
    }
}

} // verus!
