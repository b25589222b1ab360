use ruiso::plan::EncodeRule;
use ruiso::plan::dimension;
use ruiso::plan::encoder_width;
use ruiso::plan::resolve_plan;
use ruiso::schema::FieldAttributes;
use ruiso::schema::FieldDecl;
use ruiso::schema::FieldKind;
use ruiso::schema::Schema;
use ruiso::schema::SchemaError;

fn plain(name: &str, kind: FieldKind) -> FieldDecl {
    FieldDecl { name: name.to_string(), kind, optional: false, attrs: FieldAttributes::none() }
}

#[test]
fn width_parsed_from_encoder_name() {
    assert_eq!(encoder_width("WordHasher20"), Some(20));
    assert_eq!(encoder_width("Bla34"), Some(34));
    assert_eq!(encoder_width("Pair2"), Some(2));
    // the digit run after the leading letters decides, later text does not
    assert_eq!(encoder_width("Word2Hasher20"), Some(2));
    assert_eq!(encoder_width("7"), Some(7));
    assert_eq!(encoder_width("NoDigits"), None);
    assert_eq!(encoder_width(""), None);
    assert_eq!(encoder_width("Huge99999"), None);
    assert_eq!(encoder_width("Edge65535"), Some(65535));
    assert_eq!(encoder_width("Edge65536"), None);
}

#[test]
fn custom_encoder_width_trusted() {
    let mut f = plain("kal", FieldKind::Text);
    f.attrs.custom_encoder = Some("WordHasher20".to_string());
    let plan = resolve_plan(&Schema { fields: vec![f] }).unwrap();
    assert_eq!(dimension(&plan), 20);
    assert_eq!(plan.slots[0].rule, EncodeRule::DelegateToEncoder("WordHasher20".to_string(), 20));
}

#[test]
fn missing_width_rejected() {
    let mut f = plain("kal", FieldKind::Text);
    f.attrs.custom_encoder = Some("NoDigits".to_string());
    let e = resolve_plan(&Schema { fields: vec![plain("foo", FieldKind::Integer), f] });
    assert_eq!(e.unwrap_err(), SchemaError::MissingWidth(1));
}

#[test]
fn zero_width_rejected() {
    let mut f = plain("kal", FieldKind::Text);
    f.attrs.explicit_width = Some(0);
    let e = resolve_plan(&Schema { fields: vec![f] });
    assert_eq!(e.unwrap_err(), SchemaError::ZeroWidth(0));
}

#[test]
fn empty_categorical_rejected() {
    let e = resolve_plan(&Schema { fields: vec![plain("en", FieldKind::Categorical(0))] });
    assert_eq!(e.unwrap_err(), SchemaError::EmptyCategorical(0));
}

#[test]
fn bare_nested_rejected() {
    let e = resolve_plan(&Schema { fields: vec![plain("sub", FieldKind::Nested)] });
    assert_eq!(e.unwrap_err(), SchemaError::UnresolvableType(0));
}

#[test]
fn dimension_overflow_rejected() {
    let mut a = plain("a", FieldKind::Text);
    a.attrs.explicit_width = Some(usize::MAX);
    let b = plain("b", FieldKind::Integer);
    let e = resolve_plan(&Schema { fields: vec![a, b] });
    assert_eq!(e.unwrap_err(), SchemaError::DimensionOverflow(1));
}

#[test]
fn widths_sum_to_dimension() {
    let mut kal = plain("kal", FieldKind::Text);
    kal.attrs.explicit_width = Some(13);
    let schema = Schema {
        fields: vec![
            plain("foo", FieldKind::Integer),
            kal,
            plain("flag", FieldKind::Boolean),
            plain("en", FieldKind::Categorical(4)),
        ],
    };
    let plan = resolve_plan(&schema).unwrap();
    let sum: usize = plan.slots.iter().map(|s| s.width).sum();
    assert_eq!(sum, dimension(&plan));
    assert_eq!(sum, 1 + 13 + 1 + 4);
}

#[test]
fn disabled_field_has_no_slot() {
    let mut kal = plain("kal", FieldKind::Text);
    kal.attrs.disabled = true;
    let schema = Schema {
        fields: vec![plain("foo", FieldKind::Integer), kal, plain("bar", FieldKind::Float)],
    };
    let plan = resolve_plan(&schema).unwrap();
    assert_eq!(dimension(&plan), 2);
    assert_eq!(plan.slots.len(), 2);
    assert!(plan.slots.iter().all(|s| s.field != 1));
    // the slot after the disabled field starts where the one before it ends
    assert_eq!(plan.slots[1].offset, 1);
}

#[test]
fn resolution_is_deterministic() {
    let mut kal = plain("kal", FieldKind::Text);
    kal.attrs.custom_encoder = Some("WordHasher20".to_string());
    let schema = Schema {
        fields: vec![plain("foo", FieldKind::Integer), kal, plain("en", FieldKind::Categorical(3))],
    };
    let p1 = resolve_plan(&schema).unwrap();
    let p2 = resolve_plan(&schema).unwrap();
    assert_eq!(p1.total_dim, p2.total_dim);
    assert_eq!(p1.slots.len(), p2.slots.len());
    for (a, b) in p1.slots.iter().zip(p2.slots.iter()) {
        assert_eq!(a.offset, b.offset);
        assert_eq!(a.width, b.width);
        assert_eq!(a.field, b.field);
        assert_eq!(a.name, b.name);
    }
}

#[test]
fn optional_does_not_change_width() {
    let mut bar = plain("bar", FieldKind::Float);
    bar.optional = true;
    let p1 = resolve_plan(&Schema { fields: vec![plain("bar", FieldKind::Float)] }).unwrap();
    let p2 = resolve_plan(&Schema { fields: vec![bar] }).unwrap();
    assert_eq!(dimension(&p1), dimension(&p2));
}

#[test]
fn empty_schema_plans_to_nothing() {
    let plan = resolve_plan(&Schema { fields: vec![] }).unwrap();
    assert_eq!(dimension(&plan), 0);
    assert!(plan.slots.is_empty());
}

#[test]
fn text_fallback_width_is_37() {
    let plan = resolve_plan(&Schema { fields: vec![plain("kal", FieldKind::Text)] }).unwrap();
    assert_eq!(dimension(&plan), 37);
    assert_eq!(plan.slots[0].rule, EncodeRule::HashAccumulate(37));
}
