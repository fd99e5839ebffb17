use uitree::license::{LicenseHeader, LicenseTagStyle, MetadataError, SourceFileWithTags};
use uitree::expression::Expression;

#[test]
fn test_license_tag_cstyle() {
    let style = LicenseTagStyle::c_style_comment_style();
    {
        let test_source = SourceFileWithTags::new(
            "/* LICENSE BEGIN\n        foobar\n        LICENSE END */\n\nblah",
            &style,
        );
        assert_eq!(
            test_source.replace_tag(&LicenseHeader::new(vec![String::from("TEST_LICENSE")])),
            String::from("/* LICENSE BEGIN\n    TEST_LICENSE\nLICENSE END */\n\nblah")
        );
    }
    {
        let test_source = SourceFileWithTags::new("blah", &style);
        assert_eq!(
            test_source.replace_tag(&LicenseHeader::new(vec![String::from("TEST_LICENSE")])),
            String::from("/* LICENSE BEGIN\n    TEST_LICENSE\nLICENSE END */\nblah")
        );
    }
}

#[test]
fn test_license_tag_hash() {
    let style = LicenseTagStyle::shell_comment_style();
    {
        let test_source = SourceFileWithTags::new(
            "# LICENSE BEGIN\n# blub\n# LICENSE END\n\nblah",
            &style,
        );
        assert_eq!(
            test_source.replace_tag(&LicenseHeader::new(vec![String::from("TEST_LICENSE")])),
            String::from("# LICENSE BEGIN\n# TEST_LICENSE\n# LICENSE END\n\nblah")
        );
    }
    {
        let test_source = SourceFileWithTags::new("blah", &style);
        assert_eq!(
            test_source.replace_tag(&LicenseHeader::new(vec![String::from("TEST_LICENSE")])),
            String::from("# LICENSE BEGIN\n# TEST_LICENSE\n# LICENSE END\nblah")
        );
    }
}

#[test]
fn license_tag_detection_and_match() {
    let style = LicenseTagStyle::c_style_comment_style();
    let with_tag = SourceFileWithTags::new(
        "/* LICENSE BEGIN\n    TEST_LICENSE\nLICENSE END */\ncode",
        &style,
    );
    assert!(with_tag.has_tag());
    assert_eq!(
        with_tag.found_tag(),
        "/* LICENSE BEGIN\n    TEST_LICENSE\nLICENSE END */\n"
    );
    assert!(with_tag.tag_matches(&LicenseHeader::new(vec![String::from("TEST_LICENSE")])));
    assert!(!with_tag.tag_matches(&LicenseHeader::new(vec![String::from("OTHER")])));
    let without = SourceFileWithTags::new("no tag here", &style);
    assert!(!without.has_tag());
    assert_eq!(without.found_tag(), "");
}

#[test]
fn license_header_renders_empty_lines_without_indentation() {
    let style = LicenseTagStyle::shell_comment_style();
    let header = LicenseHeader::new(vec![
        String::from("a"),
        String::new(),
        String::from("b"),
    ]);
    assert_eq!(
        header.to_string(&style),
        String::from("# LICENSE BEGIN\n# a\n#\n# b\n# LICENSE END\n")
    );
}

#[test]
fn rst_style_round_trip() {
    let style = LicenseTagStyle::rst_comment_style();
    let src = ".. LICENSE BEGIN\n..    old\n.. LICENSE END\nrest";
    let file = SourceFileWithTags::new(src, &style);
    assert!(file.has_tag());
    let replaced = file.replace_tag(&LicenseHeader::new(vec![String::from("new")]));
    assert_eq!(replaced, String::from(".. LICENSE BEGIN\n..    new\n.. LICENSE END\nrest"));
}

fn meta_ok() -> uitree::license::PackageMetadata {
    uitree::license::PackageMetadata {
        license: Some(String::from("GPL-3.0-only")),
        publish: None,
        homepage: Some(String::from("https://example.test")),
        repository: Some(String::from("https://example.test/repo")),
        has_description: true,
        package_version: String::from("0.9.0"),
        dependencies: vec![
            (String::from("serde"), Some(String::from("1.0")), false),
            (String::from("proj-core"), Some(String::from("=0.9.0")), true),
        ],
    }
}

fn validate(meta: &uitree::license::PackageMetadata) -> Result<(), uitree::license::MetadataError> {
    uitree::license::validate_package_metadata(
        meta,
        "GPL-3.0-only",
        "https://example.test",
        "https://example.test/repo",
        "proj",
    )
}

#[test]
fn manifest_validation_accepts_a_conforming_package() {
    assert_eq!(validate(&meta_ok()), Ok(()));
}

#[test]
fn manifest_validation_reports_each_field_in_order() {
    let mut m = meta_ok();
    m.license = None;
    assert_eq!(validate(&m), Err(MetadataError::MissingLicense));
    let mut m = meta_ok();
    m.license = Some(String::from("MIT"));
    assert_eq!(validate(&m), Err(MetadataError::WrongLicense));
    let mut m = meta_ok();
    m.homepage = None;
    assert_eq!(validate(&m), Err(MetadataError::MissingHomepage));
    let mut m = meta_ok();
    m.repository = Some(String::from("elsewhere"));
    assert_eq!(validate(&m), Err(MetadataError::WrongRepository));
    let mut m = meta_ok();
    m.has_description = false;
    assert_eq!(validate(&m), Err(MetadataError::MissingDescription));
    // Unpublished packages only need the license.
    let mut m = meta_ok();
    m.publish = Some(false);
    m.homepage = None;
    assert_eq!(validate(&m), Ok(()));
    // A project crate must come by path and with the pinned version.
    let mut m = meta_ok();
    m.dependencies[1].2 = false;
    assert_eq!(validate(&m), Err(MetadataError::ProjectDependencyOutside));
    let mut m = meta_ok();
    m.dependencies[1].1 = Some(String::from("0.9.0"));
    assert_eq!(validate(&m), Err(MetadataError::ProjectDependencyVersion));
}

#[test]
fn transition_conditions_compare_the_state_field() {
    let t = uitree::object_tree::TransitionPropertyAnimation {
        state_id: 4,
        is_out: true,
        animation: 0,
    };
    let cond = t.condition(Expression::ReadLocalVariable {
        name: String::from("state"),
        ty: uitree::langtype::Type::Int32,
    });
    match cond {
        Expression::BinaryExpression { lhs, rhs, op } => {
            assert_eq!(op, '=');
            match *lhs {
                Expression::StructFieldAccess { name, .. } => {
                    assert_eq!(name, String::from("previous_state"))
                }
                _ => panic!("expected a field access"),
            }
            match *rhs {
                Expression::NumberLiteral(v, _) => assert_eq!(v, 4 * 1000000),
                _ => panic!("expected a literal"),
            }
        }
        _ => panic!("expected a comparison"),
    }
}
