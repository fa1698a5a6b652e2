use weld_digest::geometry::{Point3, STANDOFF_MICROS};
use weld_digest::model::{Component, DigestError, Joint, PayloadDigest};
use weld_digest::parse::{digest_file_path, read_canonical_digest, read_payload_digest};
use weld_digest::serialize::digest_to_json;

fn example_digest_text() -> &'static str {
    r#"{"name":"Rocket1","rev":"A","joints":{"J1":{"joint_number":"101","joint_design":"Butt","center":[1,2,3],"members":["C1"]}},"components":{"C1":{"design_id":"D1","part_number":"P1","description":"Flange","geom_path":null,"loc":null,"faces":null}}}"#
}

#[test]
fn example_digest_loads_with_exact_fields() {
    let d = read_payload_digest(example_digest_text()).unwrap();
    assert_eq!(d.name, "Rocket1");
    assert_eq!(d.rev, "A");
    assert_eq!(d.joint_count(), 1);
    assert_eq!(d.component_count(), 1);

    let (jid, joint) = &d.joints[0];
    assert_eq!(jid, "J1");
    assert_eq!(joint.joint_number, "101");
    assert_eq!(joint.joint_design, "Butt");
    assert_eq!(
        joint.center,
        Some(Point3 { x: 1_000_000, y: 2_000_000, z: 3_000_000 })
    );
    assert_eq!(joint.members, vec!["C1".to_string()]);

    let (cid, comp) = &d.components[0];
    assert_eq!(cid, "C1");
    assert_eq!(comp.design_id, "D1");
    assert_eq!(comp.part_number, "P1");
    assert_eq!(comp.description, "Flange");
    assert_eq!(comp.geom_path, None);
    assert_eq!(comp.loc, None);
    assert!(comp.faces.is_none());
}

#[test]
fn counts_match_source_with_several_entries() {
    let text = r#"{
        "name": "N", "rev": "B",
        "joints": {
            "J1": {"joint_number": "1", "joint_design": "Butt", "center": null, "members": []},
            "J2": {"joint_number": "2", "joint_design": "Lap", "center": [0, 0, 0], "members": ["C1", "C2"]}
        },
        "components": {
            "C1": {"design_id": "D1", "part_number": "P1", "description": "one", "geom_path": "a.obj", "loc": [1, 1, 1], "faces": [[0, 0, 0], [1, 2, 3]]},
            "C2": {"design_id": "D2", "part_number": "P2", "description": "two", "geom_path": null, "loc": null, "faces": null},
            "C3": {"design_id": "D3", "part_number": "P3", "description": "three"}
        }
    }"#;
    let d = read_payload_digest(text).unwrap();
    assert_eq!(d.joint_count(), 2);
    assert_eq!(d.component_count(), 3);
    let c1 = &d.components[0].1;
    assert_eq!(c1.geom_path, Some("a.obj".to_string()));
    assert_eq!(c1.loc, Some(Point3 { x: 1_000_000, y: 1_000_000, z: 1_000_000 }));
    assert_eq!(
        c1.faces,
        Some(vec![
            Point3 { x: 0, y: 0, z: 0 },
            Point3 { x: 1_000_000, y: 2_000_000, z: 3_000_000 },
        ])
    );
    // Omitted optional fields read as absent.
    let c3 = &d.components[2].1;
    assert_eq!(c3.geom_path, None);
    assert_eq!(c3.loc, None);
    assert!(c3.faces.is_none());
}

#[test]
fn round_trip_serialize_then_reparse_is_equivalent() {
    let d1 = read_payload_digest(example_digest_text()).unwrap();
    let text = digest_to_json(&d1);
    let d2 = read_payload_digest(text.as_str()).unwrap();
    assert_eq!(d1.name, d2.name);
    assert_eq!(d1.rev, d2.rev);
    assert_eq!(d1.joint_count(), d2.joint_count());
    assert_eq!(d1.component_count(), d2.component_count());
    for k in 0..d1.joints.len() {
        assert_eq!(d1.joints[k].0, d2.joints[k].0);
        assert_eq!(d1.joints[k].1.joint_number, d2.joints[k].1.joint_number);
        assert_eq!(d1.joints[k].1.joint_design, d2.joints[k].1.joint_design);
        assert_eq!(d1.joints[k].1.center, d2.joints[k].1.center);
        assert_eq!(d1.joints[k].1.members, d2.joints[k].1.members);
    }
    for k in 0..d1.components.len() {
        assert_eq!(d1.components[k].0, d2.components[k].0);
        assert_eq!(d1.components[k].1.design_id, d2.components[k].1.design_id);
        assert_eq!(d1.components[k].1.part_number, d2.components[k].1.part_number);
        assert_eq!(d1.components[k].1.description, d2.components[k].1.description);
        assert_eq!(d1.components[k].1.geom_path, d2.components[k].1.geom_path);
        assert_eq!(d1.components[k].1.loc, d2.components[k].1.loc);
        assert_eq!(d1.components[k].1.faces, d2.components[k].1.faces);
    }
}

#[test]
fn round_trip_of_hand_built_digest_with_escapes_and_fractions() {
    let d1 = PayloadDigest {
        name: "A \"quoted\"\nname\tand \\slash".to_string(),
        rev: "R-2".to_string(),
        joints: vec![(
            "J/9".to_string(),
            Joint {
                joint_number: "n\u{00e9}9".to_string(),
                joint_design: "Fillet".to_string(),
                center: Some(Point3 { x: -1_500_000, y: 250, z: 1_000_000_000_000 }),
                members: vec!["C1".to_string(), "C2".to_string()],
            },
        )],
        components: vec![(
            "C1".to_string(),
            Component {
                design_id: "D".to_string(),
                part_number: "P".to_string(),
                description: "d".to_string(),
                geom_path: Some("meshes/c1.obj".to_string()),
                loc: Some(Point3 { x: 1, y: -1, z: 0 }),
                faces: Some(vec![Point3 { x: 999_999, y: -999_999, z: 0 }]),
            },
        )],
    };
    let text = digest_to_json(&d1);
    let d2 = read_payload_digest(text.as_str()).unwrap();
    assert_eq!(d1.name, d2.name);
    assert_eq!(d1.rev, d2.rev);
    assert_eq!(d1.joints[0].0, d2.joints[0].0);
    assert_eq!(d1.joints[0].1.joint_number, d2.joints[0].1.joint_number);
    assert_eq!(d1.joints[0].1.center, d2.joints[0].1.center);
    assert_eq!(d1.joints[0].1.members, d2.joints[0].1.members);
    assert_eq!(d1.components[0].1.geom_path, d2.components[0].1.geom_path);
    assert_eq!(d1.components[0].1.loc, d2.components[0].1.loc);
    assert_eq!(d1.components[0].1.faces, d2.components[0].1.faces);
}

#[test]
fn fractional_and_negative_coordinates_parse_exactly() {
    let text = r#"{"name":"n","rev":"r","joints":{"J":{"joint_number":"1","joint_design":"d","center":[1.5, -2.25, 0.000001],"members":[]}},"components":{}}"#;
    let d = read_payload_digest(text).unwrap();
    assert_eq!(
        d.joints[0].1.center,
        Some(Point3 { x: 1_500_000, y: -2_250_000, z: 1 })
    );
}

#[test]
fn invalid_json_syntax_is_a_parse_error() {
    let r = read_payload_digest("{not json");
    assert!(matches!(r, Err(DigestError::ParseError(_))));
}

#[test]
fn missing_required_field_is_a_parse_error() {
    // A joint without joint_design.
    let text = r#"{"name":"n","rev":"r","joints":{"J":{"joint_number":"1","center":null,"members":[]}},"components":{}}"#;
    assert!(matches!(read_payload_digest(text), Err(DigestError::ParseError(_))));
    // A digest without components.
    let text2 = r#"{"name":"n","rev":"r","joints":{}}"#;
    assert!(matches!(read_payload_digest(text2), Err(DigestError::ParseError(_))));
}

#[test]
fn wrong_type_is_a_parse_error() {
    let text = r#"{"name":7,"rev":"r","joints":{},"components":{}}"#;
    assert!(matches!(read_payload_digest(text), Err(DigestError::ParseError(_))));
    let text2 = r#"{"name":"n","rev":"r","joints":{"J":{"joint_number":"1","joint_design":"d","center":"here","members":[]}},"components":{}}"#;
    assert!(matches!(read_payload_digest(text2), Err(DigestError::ParseError(_))));
}

#[test]
fn duplicate_map_key_is_a_parse_error() {
    let text = r#"{"name":"n","rev":"r","joints":{"J":{"joint_number":"1","joint_design":"d","center":null,"members":[]},"J":{"joint_number":"2","joint_design":"d","center":null,"members":[]}},"components":{}}"#;
    assert!(matches!(read_payload_digest(text), Err(DigestError::ParseError(_))));
}

#[test]
fn trailing_text_is_a_parse_error() {
    let text = r#"{"name":"n","rev":"r","joints":{},"components":{}} extra"#;
    assert!(matches!(read_payload_digest(text), Err(DigestError::ParseError(_))));
}

#[test]
fn unknown_fields_are_ignored() {
    let text = r#"{"name":"n","rev":"r","extra":{"deep":[1,true,null,{"a":"b"}]},"joints":{"J":{"joint_number":"1","joint_design":"d","note":3.5,"center":null,"members":[]}},"components":{}}"#;
    let d = read_payload_digest(text).unwrap();
    assert_eq!(d.name, "n");
    assert_eq!(d.joint_count(), 1);
}

#[test]
fn oversized_coordinate_is_a_parse_error() {
    let text = r#"{"name":"n","rev":"r","joints":{"J":{"joint_number":"1","joint_design":"d","center":[2000000,0,0],"members":[]}},"components":{}}"#;
    assert!(matches!(read_payload_digest(text), Err(DigestError::ParseError(_))));
}

#[test]
fn too_precise_coordinate_is_a_parse_error() {
    let text = r#"{"name":"n","rev":"r","joints":{"J":{"joint_number":"1","joint_design":"d","center":[0.1234567,0,0],"members":[]}},"components":{}}"#;
    assert!(matches!(read_payload_digest(text), Err(DigestError::ParseError(_))));
}

#[test]
fn exponent_notation_parses_exactly() {
    let text = r#"{"name":"n","rev":"r","joints":{"J":{"joint_number":"1","joint_design":"d","center":[1e3, 2.5e2, 15e-1],"members":[]}},"components":{}}"#;
    let d = read_payload_digest(text).unwrap();
    assert_eq!(
        d.joints[0].1.center,
        Some(Point3 { x: 1_000_000_000, y: 250_000_000, z: 1_500_000 })
    );
}

#[test]
fn exponent_beyond_the_model_is_a_parse_error() {
    // Too large in magnitude.
    let text = r#"{"name":"n","rev":"r","joints":{"J":{"joint_number":"1","joint_design":"d","center":[2e6,0,0],"members":[]}},"components":{}}"#;
    assert!(matches!(read_payload_digest(text), Err(DigestError::ParseError(_))));
    // Finer than a micro-unit.
    let text2 = r#"{"name":"n","rev":"r","joints":{"J":{"joint_number":"1","joint_design":"d","center":[1e-7,0,0],"members":[]}},"components":{}}"#;
    assert!(matches!(read_payload_digest(text2), Err(DigestError::ParseError(_))));
}

#[test]
fn leading_zero_in_number_is_a_parse_error() {
    let text = r#"{"name":"n","rev":"r","joints":{"J":{"joint_number":"1","joint_design":"d","center":[007,0,0],"members":[]}},"components":{}}"#;
    assert!(matches!(read_payload_digest(text), Err(DigestError::ParseError(_))));
    // A plain zero and a zero with fraction stay accepted.
    let ok = r#"{"name":"n","rev":"r","joints":{"J":{"joint_number":"1","joint_design":"d","center":[0,-0.5,0.25],"members":[]}},"components":{}}"#;
    let d = read_payload_digest(ok).unwrap();
    assert_eq!(d.joints[0].1.center, Some(Point3 { x: 0, y: -500_000, z: 250_000 }));
}

#[test]
fn unicode_escapes_are_decoded() {
    let text = r#"{"name":"\u0041\u00e9 \ud83d\ude00","rev":"r","joints":{},"components":{}}"#;
    let d = read_payload_digest(text).unwrap();
    assert_eq!(d.name, "A\u{e9} \u{1F600}");
}

#[test]
fn lone_surrogate_escape_is_a_parse_error() {
    let text = r#"{"name":"\ud83d","rev":"r","joints":{},"components":{}}"#;
    assert!(matches!(read_payload_digest(text), Err(DigestError::ParseError(_))));
    let text2 = r#"{"name":"\ude00","rev":"r","joints":{},"components":{}}"#;
    assert!(matches!(read_payload_digest(text2), Err(DigestError::ParseError(_))));
}

#[test]
fn malformed_number_in_ignored_field_is_a_parse_error() {
    let text = r#"{"name":"n","rev":"r","extra":1..e++3,"joints":{},"components":{}}"#;
    assert!(matches!(read_payload_digest(text), Err(DigestError::ParseError(_))));
    // A well-formed number of any size in an ignored field stays tolerated.
    let ok = r#"{"name":"n","rev":"r","extra":-1.5e+300,"joints":{},"components":{}}"#;
    assert!(read_payload_digest(ok).is_ok());
}

#[test]
fn parse_errors_carry_the_character_position() {
    let r = read_payload_digest("{not json");
    match r {
        Err(DigestError::ParseError(m)) => assert!(m.contains("at character")),
        _ => panic!("malformed text must yield a parse error"),
    }
}

#[test]
fn duplicate_key_error_names_the_key() {
    let text = r#"{"name":"n","rev":"r","joints":{"J7":{"joint_number":"1","joint_design":"d","center":null,"members":[]},"J7":{"joint_number":"2","joint_design":"d","center":null,"members":[]}},"components":{}}"#;
    match read_payload_digest(text) {
        Err(DigestError::ParseError(m)) => assert!(m.contains("J7")),
        _ => panic!("duplicate key must yield a parse error"),
    }
}

#[test]
fn canonical_simple_digest_always_loads() {
    // The canonical serialization of a digest with empty maps and plain
    // strings is in the class on which the loader contract owes success.
    let d = PayloadDigest {
        name: "Rocket1".to_string(),
        rev: "A".to_string(),
        joints: vec![],
        components: vec![],
    };
    let text = digest_to_json(&d);
    assert_eq!(text, r#"{"name": "Rocket1", "rev": "A", "joints": {}, "components": {}}"#);
    let d2 = read_payload_digest(text.as_str()).unwrap();
    assert_eq!(d2.name, "Rocket1");
    assert_eq!(d2.rev, "A");
    assert_eq!(d2.joint_count(), 0);
    assert_eq!(d2.component_count(), 0);
    assert!(read_canonical_digest(text.as_str()).is_some());
}

#[test]
fn canonical_text_certifies_and_other_text_does_not() {
    let d1 = read_payload_digest(example_digest_text()).unwrap();
    let canonical = digest_to_json(&d1);
    // The canonical serialization certifies: the result is exactly the
    // digest the text spells.
    let d2 = read_canonical_digest(canonical.as_str()).unwrap();
    assert_eq!(d2.name, "Rocket1");
    assert_eq!(d2.joint_count(), 1);
    assert_eq!(d2.component_count(), 1);
    assert_eq!(digest_to_json(&d2), canonical);
    // The compact source text parses but is not canonical.
    assert!(read_canonical_digest(example_digest_text()).is_none());
    // Malformed text never certifies.
    assert!(read_canonical_digest("{not json").is_none());
}

#[test]
fn duplicate_object_field_is_a_parse_error() {
    let text = r#"{"name":"n","rev":"r","joints":{"J":{"joint_number":"1","joint_number":"2","joint_design":"d","center":null,"members":[]}},"components":{}}"#;
    assert!(matches!(read_payload_digest(text), Err(DigestError::ParseError(_))));
    let text2 = r#"{"name":"n","name":"m","rev":"r","joints":{},"components":{}}"#;
    assert!(matches!(read_payload_digest(text2), Err(DigestError::ParseError(_))));
}

#[test]
fn omitted_center_reads_as_absent() {
    let text = r#"{"name":"n","rev":"r","joints":{"J":{"joint_number":"1","joint_design":"d","members":[]}},"components":{}}"#;
    let d = read_payload_digest(text).unwrap();
    assert_eq!(d.joints[0].1.center, None);
}

#[test]
fn empty_maps_load_with_zero_counts() {
    let text = r#"{"name":"n","rev":"r","joints":{},"components":{}}"#;
    let d = read_payload_digest(text).unwrap();
    assert_eq!(d.joint_count(), 0);
    assert_eq!(d.component_count(), 0);
}

#[test]
fn string_escapes_are_decoded() {
    let text = r#"{"name":"a\"b\\c\nd\te\/f","rev":"r","joints":{},"components":{}}"#;
    let d = read_payload_digest(text).unwrap();
    assert_eq!(d.name, "a\"b\\c\nd\te/f");
}

#[test]
fn lookup_finds_present_and_reports_missing() {
    let d = read_payload_digest(example_digest_text()).unwrap();
    let c = d.get_component(&"C1".to_string()).unwrap();
    assert_eq!(c.part_number, "P1");
    let j = d.get_joint(&"J1".to_string()).unwrap();
    assert_eq!(j.joint_number, "101");
    let missing = d.get_component(&"C9".to_string());
    assert!(matches!(missing, Err(DigestError::NotFound(_))));
    let missing_joint = d.get_joint(&"nope".to_string());
    assert!(matches!(missing_joint, Err(DigestError::NotFound(_))));
}

#[test]
fn error_messages_are_carried() {
    let e = DigestError::IoError("could not read payload_digest.json".to_string());
    assert_eq!(e.message(), "could not read payload_digest.json");
    let r = read_payload_digest("");
    match r {
        Err(e) => assert!(!e.message().is_empty()),
        Ok(_) => panic!("empty text must not parse"),
    }
}

#[test]
fn digest_file_path_joins_directory_and_fixed_name() {
    assert_eq!(digest_file_path("sample_data/sample_0"), "sample_data/sample_0/payload_digest.json");
    assert_eq!(digest_file_path(""), "/payload_digest.json");
}

#[test]
fn standoff_constant_matches_fifty_world_units() {
    assert_eq!(STANDOFF_MICROS, 50 * 1_000_000);
}
