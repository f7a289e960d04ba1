use build_matrix::utils::{
    configurations_from_nodes, filter_ld_files, get_cproject_configurations, get_project_name,
    project_name_from_nodes, validate_cproject_file, validate_project_file, XmlNode,
};

fn start(name: &str, attr: Option<&str>) -> XmlNode {
    XmlNode::Start {
        name: name.as_bytes().to_vec(),
        name_attr: attr.map(|s| s.to_string()),
    }
}

#[test]
fn descriptor_content_checks_look_for_the_markers() {
    assert!(validate_project_file("<projectDescription><name>x</name></projectDescription>"));
    assert!(!validate_project_file("<cproject/>"));
    assert!(validate_cproject_file("<?xml?><cproject version=\"2\"/>"));
    assert!(!validate_cproject_file("<project/>"));
}

#[test]
fn project_name_scan_takes_the_text_after_the_first_name_tag() {
    let nodes = vec![
        start("projectDescription", None),
        start("name", None),
        XmlNode::Text("Demo".to_string()),
    ];
    assert_eq!(project_name_from_nodes(&nodes).unwrap(), "Demo");
}

#[test]
fn project_name_scan_fails_at_the_end_of_the_document() {
    let nodes = vec![start("projectDescription", None), XmlNode::Eof];
    assert_eq!(
        project_name_from_nodes(&nodes).unwrap_err(),
        "Project name not found in .project file"
    );
}

#[test]
fn project_name_scan_passes_over_a_name_tag_without_text() {
    let nodes = vec![
        start("name", None),
        XmlNode::Other,
        start("name", None),
        XmlNode::Text("Second".to_string()),
    ];
    assert_eq!(project_name_from_nodes(&nodes).unwrap(), "Second");
}

#[test]
fn project_name_scan_propagates_parse_errors() {
    let nodes = vec![XmlNode::Malformed("boom".to_string())];
    assert_eq!(project_name_from_nodes(&nodes).unwrap_err(), "boom");
}

#[test]
fn configuration_scan_collects_name_attributes_in_order() {
    let nodes = vec![
        start("cproject", None),
        start("configuration", Some("Debug")),
        XmlNode::End { name: "configuration".as_bytes().to_vec() },
        start("configuration", Some("Release")),
        start("configuration", None),
        XmlNode::Eof,
    ];
    assert_eq!(
        configurations_from_nodes(&nodes).unwrap(),
        vec!["Debug".to_string(), "Release".to_string()]
    );
}

#[test]
fn configuration_scan_propagates_parse_errors() {
    let nodes = vec![start("cproject", None), XmlNode::Malformed("bad tag".to_string())];
    assert_eq!(
        configurations_from_nodes(&nodes).unwrap_err(),
        "Error parsing .cproject: bad tag"
    );
}

#[test]
fn project_name_is_read_from_real_descriptor_content() {
    let content = "<?xml version=\"1.0\" encoding=\"UTF-8\"?>\n\
        <projectDescription>\n  <name>DemoBoard</name>\n  <comment></comment>\n\
        </projectDescription>\n";
    assert_eq!(get_project_name(content).unwrap(), "DemoBoard");
}

#[test]
fn missing_project_name_is_reported_from_real_content() {
    let content = "<projectDescription><comment>x</comment></projectDescription>";
    assert_eq!(
        get_project_name(content).unwrap_err(),
        "Project name not found in .project file"
    );
}

#[test]
fn configurations_are_read_from_real_descriptor_content() {
    let content = "<?xml version=\"1.0\"?>\n<cproject>\n\
        <configuration name=\"Debug\" id=\"1\"></configuration>\n\
        <configuration name=\"Release\" id=\"2\"></configuration>\n\
        </cproject>\n";
    assert_eq!(
        get_cproject_configurations(content).unwrap(),
        vec!["Debug".to_string(), "Release".to_string()]
    );
}

#[test]
fn escaped_attribute_values_are_unescaped() {
    let content = "<cproject><configuration name=\"A&amp;B\"/></cproject>";
    // A self-closing tag is an empty element, not a start tag, so it is
    // passed over; an open-close pair is collected.
    assert_eq!(get_cproject_configurations(content).unwrap(), Vec::<String>::new());
    let content2 = "<cproject><configuration name=\"A&amp;B\"></configuration></cproject>";
    assert_eq!(get_cproject_configurations(content2).unwrap(), vec!["A&B".to_string()]);
}

#[test]
fn linker_scripts_are_filtered_by_extension() {
    let names = vec![
        "board.ld".to_string(),
        "readme.txt".to_string(),
        ".ld".to_string(),
        "two.part.ld".to_string(),
        "ld".to_string(),
    ];
    assert_eq!(
        filter_ld_files(&names),
        vec!["board.ld".to_string(), "two.part.ld".to_string()]
    );
}
