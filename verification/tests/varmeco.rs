use modsim::encoding::{DataType, Encoding, Value};
use modsim::model::RegisterKind;
use modsim::varmeco::{parse, Header};

#[test]
fn header_with_missing_required_column_fails_cleanly() {
    let csv = "Id;Register;Name\nfoo;0;bar\n";
    let result = parse(csv);
    assert_eq!(result.registers.len(), 0);
    assert_eq!(result.errors.len(), 1);
    assert!(result.errors[0].message.contains("Type"));
}

#[test]
fn empty_input_yields_an_error() {
    let result = parse("");
    assert!(result.registers.is_empty());
    assert_eq!(result.errors.len(), 1);
}

#[test]
fn handles_utf8_bom() {
    let csv = "\u{FEFF}Id;Register;Type;Name\na;0;coil;label\n";
    let result = parse(csv);
    assert!(result.errors.is_empty(), "{:?}", result.errors);
    assert_eq!(result.registers.len(), 1);
    assert_eq!(result.registers[0].name, "a");
}

#[test]
fn default_values_for_coils_parse() {
    let csv = "Id;Register;Type;Name;DefaultValue\nx;5;coil;label;1\ny;6;coil;label;0\nz;7;coil;label;\n";
    let result = parse(csv);
    assert!(result.errors.is_empty());
    assert_eq!(result.registers[0].default_value, Value::Bool(true));
    assert_eq!(result.registers[1].default_value, Value::Bool(false));
    assert_eq!(result.registers[2].default_value, Value::Bool(false));
}

#[test]
fn signed_value_type_default() {
    let csv = "Id;Register;Type;Name;ValueType;DefaultValue\nx;5;holding-register;label;int16_t;-42\n";
    let result = parse(csv);
    assert!(result.errors.is_empty(), "{:?}", result.errors);
    assert_eq!(result.registers[0].data_type, DataType::I16);
    assert_eq!(result.registers[0].default_value, Value::I16(-42));
}

#[test]
fn numeric_kind_codes_supported() {
    let csv = "Id;Register;Type;Name\nc;0;0;coil_test\nd;1;1;discrete_test\nh;2;2;holding_test\ni;3;3;input_test\n";
    let result = parse(csv);
    assert!(result.errors.is_empty(), "{:?}", result.errors);
    assert_eq!(result.registers[0].kind, RegisterKind::Coil);
    assert_eq!(result.registers[1].kind, RegisterKind::Discrete);
    assert_eq!(result.registers[2].kind, RegisterKind::Holding);
    assert_eq!(result.registers[3].kind, RegisterKind::Input);
}

#[test]
fn missing_header_message_names_first_missing_column() {
    let result = parse("Register;Name\n");
    assert_eq!(result.errors.len(), 1);
    assert_eq!(result.errors[0].line, 1);
    assert_eq!(result.errors[0].message, "required header 'Id' is missing");
    let empty = parse("");
    assert_eq!(empty.errors[0].line, 0);
    assert_eq!(empty.errors[0].message, "empty file");
}

#[test]
fn header_columns_match_case_insensitively_after_trimming() {
    let h = Header::parse(" id ;REGISTER;type;Name;valuetype;DefaultValue\r").unwrap();
    assert_eq!((h.id, h.register, h.kind, h.name), (0, 1, 2, 3));
    assert_eq!(h.value_type, Some(4));
    assert_eq!(h.default_value, Some(5));
    assert_eq!(h.format, None);
    assert_eq!(
        Header::parse("Id;Register;Type").unwrap_err(),
        "required header 'Name' is missing"
    );
}

#[test]
fn row_errors_carry_line_and_message() {
    let csv = "Id;Register;Type;Name\n;1;coil;a\nb;70000;coil;b\nc;2;gizmo;c\nd;3;coil; \ne;4;input-register;ok\n";
    let result = parse(csv);
    assert_eq!(result.processed_lines, 5);
    assert_eq!(result.registers.len(), 1);
    assert_eq!(result.registers[0].name, "e");
    assert_eq!(result.registers[0].kind, RegisterKind::Input);
    assert_eq!(result.registers[0].address, 4);
    let msgs: Vec<(usize, String)> =
        result.errors.iter().map(|e| (e.line, e.message.clone())).collect();
    assert_eq!(
        msgs,
        vec![
            (2, "Id is empty".to_string()),
            (3, "Register '70000' is not a u16".to_string()),
            (4, "Type 'gizmo' is unknown".to_string()),
            (5, "Name is empty".to_string()),
        ]
    );
}

#[test]
fn blank_lines_and_crlf_are_skipped() {
    let csv = "Id;Register;Type;Name\r\n\r\n  \r\nx;1;HOLDING_REGISTER;lbl\r\n";
    let result = parse(csv);
    assert!(result.errors.is_empty(), "{:?}", result.errors);
    assert_eq!(result.processed_lines, 1);
    let r = &result.registers[0];
    assert_eq!(r.kind, RegisterKind::Holding);
    assert_eq!(r.data_type, DataType::U16);
    assert_eq!(r.default_value, Value::U16(0));
    assert_eq!(r.encoding, Encoding::BigEndian);
    assert_eq!(r.byte_length, None);
    assert_eq!(r.description, "lbl");
}

#[test]
fn description_collects_the_optional_columns() {
    let csv = "Id;Register;Type;Name;Multiplicator;Divisor;Format;ValueHandling;SecurityLevel;DigiVisuFormat\n\
               t;3;input-register;Temp;;10;\u{b0}C;READ_ONLY;SERVICE;####,#\n\
               u;4;input-register;Plain;1;1;;on_conflict_master_has_priority;all;\n";
    let result = parse(csv);
    assert!(result.errors.is_empty(), "{:?}", result.errors);
    assert_eq!(
        result.registers[0].description,
        "Temp \u{b7} scale \u{d7}1/10 \u{b7} unit \u{b0}C \u{b7} READ_ONLY \u{b7} auth: SERVICE \u{b7} fmt ####,#"
    );
    assert_eq!(result.registers[1].description, "Plain");
}

#[test]
fn kinds_and_defaults_edge_cases() {
    let csv = "Id;Register;Type;Name;ValueType;DefaultValue\n\
               a;+1;Discrete-Input;l;;TRUE\n\
               b;2;-0;l;;On\n\
               c;3;4;l;;\n\
               d;4;holding-register;l;INT16;40000\n\
               e;5;holding_register;l;uint16;65535\n\
               f;6;input_register;l;;x\n";
    let result = parse(csv);
    assert_eq!(result.registers[0].kind, RegisterKind::Discrete);
    assert_eq!(result.registers[0].address, 1);
    assert_eq!(result.registers[0].default_value, Value::Bool(true));
    assert_eq!(result.registers[1].kind, RegisterKind::Coil);
    assert_eq!(result.registers[1].default_value, Value::Bool(true));
    // code 4 is unknown
    assert_eq!(result.errors.len(), 1);
    assert_eq!(result.errors[0].line, 4);
    // out-of-range signed default falls back to 0
    assert_eq!(result.registers[2].data_type, DataType::I16);
    assert_eq!(result.registers[2].default_value, Value::I16(0));
    assert_eq!(result.registers[3].default_value, Value::U16(65535));
    assert_eq!(result.registers[4].default_value, Value::U16(0));
}

#[test]
fn signed_input_row_with_scaling_and_unit() {
    let csv = "Id;Register;Type;ValueHandling;Min;Max;Name;ValueType;Format;Multiplicator;Divisor;DigiVisuFormat;SecurityLevel;DefaultValue\r\n\
               SYS.Config.TfOffset;3;input-register;READ_ONLY;-30;30;Offset;int16_t;\u{b0}C;1;10;####,# \u{b0}C;ALL;-5\r\n";
    let result = parse(csv);
    assert!(result.errors.is_empty(), "{:?}", result.errors);
    let r = &result.registers[0];
    assert_eq!(r.name, "SYS.Config.TfOffset");
    assert_eq!(r.kind, RegisterKind::Input);
    assert_eq!(r.data_type, DataType::I16);
    assert_eq!(r.address, 3);
    assert_eq!(r.default_value, Value::I16(-5));
    assert!(r.description.contains("\u{b0}C"), "{}", r.description);
    assert!(r.description.contains("scale \u{d7}1/10"), "{}", r.description);
    assert!(!r.description.contains("auth:"), "{}", r.description);
}

use modsim::varmeco::import_failure;

#[test]
fn import_failure_reports_why_nothing_was_imported() {
    assert_eq!(
        import_failure(&parse("not even a csv")).as_deref(),
        Some("line 1: required header 'Id' is missing")
    );
    let rows = parse("Id;Register;Type;Name\na;x;coil;n\nb;1;gizmo;n\n");
    assert_eq!(
        import_failure(&rows).as_deref(),
        Some("line 2: Register 'x' is not a u16; line 3: Type 'gizmo' is unknown")
    );
    assert_eq!(import_failure(&parse("Id;Register;Type;Name\n")).as_deref(), Some("no registers found"));
    assert_eq!(import_failure(&parse("Id;Register;Type;Name\na;1;coil;n\nb;x;coil;n\n")), None);
}
