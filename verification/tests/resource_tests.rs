use glacier_codegen::resource::{prepare_resource_type, ResourceLibError, WoaVersion};

#[test]
fn four_byte_code_is_accepted() {
    let r = prepare_resource_type("TEMP");
    assert_eq!(r.unwrap(), "TEMP");
}

#[test]
fn wrong_length_code_is_rejected() {
    for code in ["", "TEM", "TEMPS", "nonexistent_type"] {
        match prepare_resource_type(code) {
            Err(ResourceLibError::InvalidResourceType(t)) => assert_eq!(t, code),
            other => panic!("expected invalid-type error, got {:?}", other),
        }
    }
}

#[test]
fn code_with_nul_byte_is_rejected() {
    match prepare_resource_type("TE\0P") {
        Err(ResourceLibError::InvalidResourceType(t)) => assert_eq!(t, "TE\0P"),
        other => panic!("expected invalid-type error, got {:?}", other),
    }
}

#[test]
fn versions_are_distinct_values() {
    let versions = [WoaVersion::HM2016, WoaVersion::HM2, WoaVersion::HM3];
    assert_eq!(versions.len(), 3);
    let shown: Vec<String> = versions.iter().map(|v| format!("{:?}", v)).collect();
    assert_eq!(shown, ["HM2016", "HM2", "HM3"]);
}

#[test]
fn existing_path_is_accepted() {
    let r = glacier_codegen::resource::prepare_path_parameter("/tmp/out.json", true, true);
    assert_eq!(r.unwrap(), "/tmp/out.json");
}

#[test]
fn output_path_need_not_exist() {
    let r = glacier_codegen::resource::prepare_path_parameter("/tmp/new.json", false, false);
    assert_eq!(r.unwrap(), "/tmp/new.json");
}

#[test]
fn missing_required_path_is_rejected() {
    match glacier_codegen::resource::prepare_path_parameter("/tmp/absent.json", false, true) {
        Err(ResourceLibError::InvalidPath(p, m)) => {
            assert_eq!(p, "/tmp/absent.json");
            assert_eq!(m, "Path does not exist");
        }
        other => panic!("expected invalid-path error, got {:?}", other),
    }
}

#[test]
fn path_with_nul_byte_is_rejected() {
    match glacier_codegen::resource::prepare_path_parameter("bad\0path", true, true) {
        Err(ResourceLibError::InvalidPath(p, m)) => {
            assert_eq!(p, "bad\0path");
            assert_eq!(m, "cannot convert to CString");
        }
        other => panic!("expected invalid-path error, got {:?}", other),
    }
}
