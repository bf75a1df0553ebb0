use metaparse::netcdf::{
    extract_netcdf_metadata, walk_group, NcAttribute, NcFile, NcGroup, NcVariable,
    NetCdfVariableSummary, MAX_GROUP_DEPTH, MAX_VARS_TOTAL,
};

fn variable(name: &str, dims: &[(&str, usize)]) -> NcVariable {
    NcVariable {
        name: name.to_string(),
        dimensions: dims.iter().map(|(n, l)| (n.to_string(), *l)).collect(),
        vartype: "Float".to_string(),
        attributes: vec![
            NcAttribute { name: "units".to_string(), value: Ok("K".to_string()) },
            NcAttribute { name: "bad".to_string(), value: Err("invalid type".to_string()) },
        ],
    }
}

fn group(name: &str, variables: Vec<NcVariable>, groups: Vec<NcGroup>) -> NcGroup {
    NcGroup { name: name.to_string(), variables, groups }
}

fn names(vs: &[NetCdfVariableSummary]) -> Vec<String> {
    vs.iter().map(|v| v.name.clone()).collect()
}

#[test]
fn netcdf_classic_file_lists_root_variables() {
    let file = NcFile {
        global_attributes: vec![NcAttribute { name: "title".to_string(), value: Ok("run".to_string()) }],
        dimensions: vec![("time".to_string(), 4), ("lat".to_string(), 3)],
        variables: vec![variable("temp", &[("time", 4), ("lat", 3)])],
        root_groups: None,
    };
    let m = extract_netcdf_metadata(&file, 1234).unwrap();
    assert_eq!(m.byte_count, 1234);
    assert_eq!(m.netcdf4_model, Some(false));
    assert_eq!(m.dimension_count, Some(2));
    assert_eq!(m.dimensions_sample, Some(vec![("time".to_string(), 4), ("lat".to_string(), 3)]));
    let globals = m.global_attributes.unwrap();
    assert_eq!(globals.len(), 1);
    assert_eq!(globals[0].name, "title");
    assert_eq!(globals[0].value, "run");
    let vars = m.variables.unwrap();
    assert_eq!(m.variable_count, Some(1));
    assert_eq!(vars[0].name, "temp");
    assert_eq!(vars[0].shape, Some(vec![4, 3]));
    assert_eq!(vars[0].dimension_names, Some(vec!["time".to_string(), "lat".to_string()]));
    assert_eq!(vars[0].vartype.as_deref(), Some("Float"));
    let attrs = vars[0].attributes.as_ref().unwrap();
    assert_eq!(attrs[0].value, "K");
    assert_eq!(attrs[1].name, "bad");
    assert_eq!(attrs[1].value, "<read error: invalid type>");
    assert_eq!(m.metadata_truncated, Some(false));
    assert!(m.parse_error.is_none());
}

#[test]
fn netcdf4_groups_are_listed_with_paths() {
    let inner = group("inner", vec![variable("z", &[])], vec![]);
    let outer = group("outer", vec![variable("y", &[("n", 2)])], vec![inner]);
    let file = NcFile {
        global_attributes: vec![],
        dimensions: vec![],
        variables: vec![variable("x", &[])],
        root_groups: Some(vec![outer, group("side", vec![variable("w", &[])], vec![])]),
    };
    let m = extract_netcdf_metadata(&file, 0).unwrap();
    assert_eq!(m.netcdf4_model, Some(true));
    let vars = m.variables.unwrap();
    assert_eq!(names(&vars), vec!["x", "outer/y", "outer/inner/z", "side/w"]);
    assert_eq!(m.variable_count, Some(4));
    assert_eq!(m.metadata_truncated, Some(false));
}

#[test]
fn netcdf_variable_cap_marks_truncated() {
    let variables: Vec<NcVariable> = (0..MAX_VARS_TOTAL + 3).map(|i| variable(&format!("v{i}"), &[])).collect();
    let file = NcFile {
        global_attributes: vec![],
        dimensions: vec![],
        variables,
        root_groups: Some(vec![group("g", vec![variable("late", &[])], vec![])]),
    };
    let m = extract_netcdf_metadata(&file, 0).unwrap();
    assert_eq!(m.variable_count, Some(MAX_VARS_TOTAL));
    assert_eq!(m.metadata_truncated, Some(true));
}

#[test]
fn netcdf_group_too_deep_is_not_walked() {
    let g = group("deep", vec![variable("a", &[])], vec![]);
    let mut out = Vec::new();
    let mut truncated = false;
    assert!(walk_group(&g, "p", &mut out, &mut truncated, MAX_GROUP_DEPTH + 1).is_ok());
    assert!(out.is_empty());
    assert!(truncated);
    let mut truncated = false;
    assert!(walk_group(&g, "p", &mut out, &mut truncated, MAX_GROUP_DEPTH).is_ok());
    assert_eq!(names(&out), vec!["p/a"]);
    assert!(!truncated);
}
