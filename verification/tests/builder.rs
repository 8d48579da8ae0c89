use seq_macro::builder::{
    convert_field, missing_field_message, repeated_setters, BuilderArg, FieldAttr, FieldError,
    FieldKind, FieldType, GenericArg, MetaArg, PathSegment, Setters, TypeShape,
};

fn name_value(name: &str, text: bool) -> MetaArg {
    MetaArg::NameValue { name: Some(name.to_string()), text }
}

fn builder(args: Vec<MetaArg>) -> FieldAttr {
    FieldAttr::List { name: Some("builder".to_string()), args }
}

fn wrapper(name: &str) -> TypeShape {
    TypeShape::Path {
        qualified: false,
        segments: vec![PathSegment { name: name.to_string(), args: Some(vec![GenericArg::Type]) }],
    }
}

fn plain(name: &str) -> TypeShape {
    TypeShape::Path {
        qualified: false,
        segments: vec![PathSegment { name: name.to_string(), args: None }],
    }
}

#[test]
fn field_without_attributes() {
    assert_eq!(convert_field(&vec![], &plain("String")), Ok(FieldKind::AllAtOnce));
    assert_eq!(convert_field(&vec![], &wrapper("Option")), Ok(FieldKind::Optional));
    assert_eq!(convert_field(&vec![], &wrapper("Vec")), Ok(FieldKind::AllAtOnce));
    assert_eq!(convert_field(&vec![], &TypeShape::Other), Ok(FieldKind::AllAtOnce));
}

#[test]
fn vec_with_named_setter_is_repeated() {
    let attrs = vec![FieldAttr::Other, builder(vec![name_value("each", true)])];
    assert_eq!(
        convert_field(&attrs, &wrapper("Vec")),
        Ok(FieldKind::Repeated { attr: 1, arg: 0 })
    );
    assert_eq!(convert_field(&attrs, &wrapper("Option")), Ok(FieldKind::Optional));
    assert_eq!(convert_field(&attrs, &wrapper("Box")), Ok(FieldKind::AllAtOnce));
    assert_eq!(convert_field(&attrs, &plain("Vec")), Ok(FieldKind::AllAtOnce));
}

#[test]
fn last_naming_attribute_counts() {
    let attrs = vec![
        builder(vec![name_value("each", true)]),
        builder(vec![MetaArg::Other, name_value("each", false), name_value("each", true)]),
        FieldAttr::Other,
        builder(vec![]),
        builder(vec![name_value("each", false)]),
        FieldAttr::List { name: Some("serde".to_string()), args: vec![name_value("each", true)] },
        FieldAttr::List { name: None, args: vec![name_value("each", true)] },
    ];
    assert_eq!(
        convert_field(&attrs, &wrapper("Vec")),
        Ok(FieldKind::Repeated { attr: 1, arg: 2 })
    );
}

#[test]
fn first_decisive_argument_counts() {
    // each = "a", other = 1 : the name is taken and the rest is not read.
    let accepted = vec![builder(vec![name_value("each", true), name_value("other", false)])];
    assert_eq!(
        convert_field(&accepted, &wrapper("Vec")),
        Ok(FieldKind::Repeated { attr: 0, arg: 0 })
    );
    // other = 1, each = "a" : refused.
    let refused = vec![builder(vec![name_value("other", false), name_value("each", true)])];
    assert_eq!(convert_field(&refused, &wrapper("Vec")), Err(FieldError { attr: 0 }));
    // each = 1, other = "x" : a value that is no string settles nothing.
    let refused = vec![builder(vec![name_value("each", false), name_value("other", true)])];
    assert_eq!(convert_field(&refused, &wrapper("Vec")), Err(FieldError { attr: 0 }));
    // a::b = 1 : a longer path is a name other than `each`.
    let refused = vec![builder(vec![MetaArg::NameValue { name: None, text: true }])];
    assert_eq!(convert_field(&refused, &wrapper("Vec")), Err(FieldError { attr: 0 }));
}

#[test]
fn refused_attribute_is_an_error_for_every_type() {
    let attrs = vec![
        FieldAttr::Other,
        builder(vec![name_value("each", true)]),
        builder(vec![MetaArg::Other, name_value("eac", true)]),
        builder(vec![name_value("other", true)]),
    ];
    for ty in [wrapper("Option"), wrapper("Vec"), plain("u8"), TypeShape::Other] {
        assert_eq!(convert_field(&attrs, &ty), Err(FieldError { attr: 2 }));
    }
}

#[test]
fn other_attribute_lists_are_not_read() {
    let attrs = vec![FieldAttr::List {
        name: Some("other".to_string()),
        args: vec![name_value("other", true)],
    }];
    assert_eq!(convert_field(&attrs, &wrapper("Vec")), Ok(FieldKind::AllAtOnce));
}

#[test]
fn vec_without_named_setter_is_set_at_once() {
    let attrs = vec![builder(vec![name_value("each", false)]), builder(vec![MetaArg::Other])];
    assert_eq!(convert_field(&attrs, &wrapper("Vec")), Ok(FieldKind::AllAtOnce));
}

#[test]
fn argument_readings() {
    assert_eq!(name_value("each", true).builder_arg(), BuilderArg::EachText);
    assert_eq!(name_value("each", false).builder_arg(), BuilderArg::EachOther);
    assert_eq!(name_value("Each", true).builder_arg(), BuilderArg::OtherNameValue);
    assert_eq!(
        MetaArg::NameValue { name: None, text: true }.builder_arg(),
        BuilderArg::OtherNameValue
    );
    assert_eq!(MetaArg::Other.builder_arg(), BuilderArg::NotNameValue);
}

#[test]
fn type_readings() {
    let segment = |name: &str, args: Option<Vec<GenericArg>>| PathSegment {
        name: name.to_string(),
        args,
    };
    let path = |qualified, segments| TypeShape::Path { qualified, segments };
    assert_eq!(wrapper("Option").field_type(), FieldType::Option);
    assert_eq!(wrapper("Vec").field_type(), FieldType::Vec);
    assert_eq!(wrapper("vec").field_type(), FieldType::Other);
    assert_eq!(plain("Option").field_type(), FieldType::Other);
    assert_eq!(TypeShape::Other.field_type(), FieldType::Other);
    assert_eq!(path(false, vec![]).field_type(), FieldType::Other);
    assert_eq!(
        path(true, vec![segment("Vec", Some(vec![GenericArg::Type]))]).field_type(),
        FieldType::Other
    );
    assert_eq!(
        path(false, vec![segment("std", None), segment("Vec", Some(vec![GenericArg::Type]))])
            .field_type(),
        FieldType::Other
    );
    assert_eq!(
        path(false, vec![segment("Vec", Some(vec![GenericArg::Other]))]).field_type(),
        FieldType::Other
    );
    assert_eq!(
        path(false, vec![segment("Vec", Some(vec![GenericArg::Type, GenericArg::Type]))])
            .field_type(),
        FieldType::Other
    );
    assert_eq!(path(false, vec![segment("Vec", Some(vec![]))]).field_type(), FieldType::Other);
}

#[test]
fn setters_of_a_repeated_field() {
    let args = "args".to_string();
    let arg = "arg".to_string();
    assert_eq!(repeated_setters(&args, &arg), Setters::EachAndWhole);
    assert_eq!(repeated_setters(&args, &args), Setters::Each);
}

#[test]
fn message_for_a_missing_field() {
    assert_eq!(missing_field_message("executable"), "Missing required field executable");
    assert_eq!(missing_field_message(""), "Missing required field ");
}
