use ruiso::encoders::Defaultbool1;
use ruiso::encoders::Featurizer;
use ruiso::encoders::NoEncoders;
use ruiso::fill::BufferSizeError;
use ruiso::fill::check_record;
use ruiso::fill::featurize;
use ruiso::fill::fill;
use ruiso::fill::fill_default;
use ruiso::hash::bucket;
use ruiso::hash::hash_str;
use ruiso::plan::resolve_plan;
use ruiso::schema::Cell;
use ruiso::schema::FieldAttributes;
use ruiso::schema::FieldDecl;
use ruiso::schema::FieldKind;
use ruiso::schema::Record;
use ruiso::schema::Scalar;
use ruiso::schema::Schema;
use ruiso::schema::Value;

fn as_f32(c: &Cell) -> f32 {
    match c {
        Cell::Zero => 0.0,
        Cell::Num(Scalar::Int(i)) => *i as f32,
        Cell::Num(Scalar::UInt(u)) => *u as f32,
        Cell::Num(Scalar::Bits(b)) => f64::from_bits(*b) as f32,
        Cell::Count(n) => *n as f32,
    }
}

fn to_f32(cells: &[Cell]) -> Vec<f32> {
    cells.iter().map(as_f32).collect()
}

fn plain(name: &str, kind: FieldKind) -> FieldDecl {
    FieldDecl { name: name.to_string(), kind, optional: false, attrs: FieldAttributes::none() }
}

#[test]
fn hash_is_fixed() {
    // the seed untouched for the empty string, and one exact fold
    assert_eq!(hash_str(""), 0xcbf2_9ce4_8422_2325);
    assert_eq!(hash_str("a"), 0xaf63_dc4c_8601_ec8c);
    assert_eq!(bucket("ab", 7), 6);
    assert_eq!(bucket("cook", 23), 16);
}

#[test]
fn wrong_buffer_length_rejected_before_any_write() {
    let plan = resolve_plan(&Schema { fields: vec![plain("foo", FieldKind::Integer)] }).unwrap();
    let st = Record { values: vec![Some(Value::Number(Scalar::Int(4)))] };
    let mut buffer = vec![Cell::Zero; 2];
    assert_eq!(fill(&plan, &st, &mut buffer, &NoEncoders {}), Err(BufferSizeError));
    assert!(buffer.iter().all(|c| *c == Cell::Zero));
    let mut buffer = vec![Cell::Zero; 1];
    assert_eq!(fill(&plan, &st, &mut buffer, &NoEncoders {}), Ok(()));
    assert_eq!(buffer[0], Cell::Num(Scalar::Int(4)));
}

#[test]
fn duplicate_tokens_accumulate() {
    let mut zin = plain("zin", FieldKind::TextCollection);
    zin.attrs.explicit_width = Some(23);
    let plan = resolve_plan(&Schema { fields: vec![zin] }).unwrap();
    let st = Record {
        values: vec![Some(Value::Texts(vec![
            "dup".to_string(),
            "other".to_string(),
            "dup".to_string(),
        ]))],
    };
    let data = to_f32(&featurize(&plan, &st, &NoEncoders {}));
    assert!(data[bucket("dup", 23)] >= 2.0);
}

#[test]
fn boolean_true_writes_one() {
    let plan = resolve_plan(&Schema { fields: vec![plain("flag", FieldKind::Boolean)] }).unwrap();
    let st = Record { values: vec![Some(Value::Boolean(true))] };
    assert_eq!(to_f32(&featurize(&plan, &st, &NoEncoders {})), vec![1.0]);
    let st = Record { values: vec![Some(Value::Boolean(false))] };
    assert_eq!(to_f32(&featurize(&plan, &st, &NoEncoders {})), vec![0.0]);
}

#[test]
fn record_shape_is_checked() {
    let mut bar = plain("bar", FieldKind::Float);
    bar.optional = true;
    let plan = resolve_plan(&Schema { fields: vec![plain("foo", FieldKind::Integer), bar] })
        .unwrap();
    let good = Record {
        values: vec![Some(Value::Number(Scalar::Int(1))), None],
    };
    assert!(check_record(&plan, &good));
    // too few values
    let short = Record { values: vec![Some(Value::Number(Scalar::Int(1)))] };
    assert!(!check_record(&plan, &short));
    // absent value for a field that is not optional
    let absent = Record { values: vec![None, None] };
    assert!(!check_record(&plan, &absent));
    // a text where a number belongs
    let wrong = Record {
        values: vec![Some(Value::Text("x".to_string())), None],
    };
    assert!(!check_record(&plan, &wrong));
    // a variant index beyond the declared count
    let plan2 = resolve_plan(&Schema { fields: vec![plain("en", FieldKind::Categorical(3))] })
        .unwrap();
    assert!(!check_record(&plan2, &Record { values: vec![Some(Value::Variant(3))] }));
    assert!(check_record(&plan2, &Record { values: vec![Some(Value::Variant(2))] }));
}

struct PairEncoders {}

impl Featurizer for PairEncoders {
    fn fill_slice(&self, encoder: &str, data: &Value, slice: &mut Vec<Cell>) {
        if encoder == "Pair2" {
            if let Value::Number(s) = data {
                slice[0] = Cell::Num(*s);
                slice[1] = Cell::Count(7);
            }
        }
    }

    fn default(&self, encoder: &str, slice: &mut Vec<Cell>) {
        if encoder == "Pair2" {
            slice[0] = Cell::Count(9);
        }
    }
}

fn delegate_schema(optional: bool) -> Schema {
    let mut sub = plain("sub", FieldKind::Nested);
    sub.optional = optional;
    sub.attrs.custom_encoder = Some("Pair2".to_string());
    Schema {
        fields: vec![plain("foo", FieldKind::Integer), sub, plain("bar", FieldKind::Integer)],
    }
}

#[test]
fn delegate_fills_its_own_range() {
    let plan = resolve_plan(&delegate_schema(false)).unwrap();
    let st = Record {
        values: vec![
            Some(Value::Number(Scalar::Int(1))),
            Some(Value::Number(Scalar::Int(5))),
            Some(Value::Number(Scalar::Int(3))),
        ],
    };
    let data = to_f32(&featurize(&plan, &st, &PairEncoders {}));
    assert_eq!(data, vec![1.0, 5.0, 7.0, 3.0]);
}

#[test]
fn absent_delegate_uses_sub_encoder_default() {
    let plan = resolve_plan(&delegate_schema(true)).unwrap();
    let st = Record {
        values: vec![
            Some(Value::Number(Scalar::Int(1))),
            None,
            Some(Value::Number(Scalar::Int(3))),
        ],
    };
    let data = to_f32(&featurize(&plan, &st, &PairEncoders {}));
    assert_eq!(data, vec![1.0, 9.0, 0.0, 3.0]);
}

#[test]
fn fill_default_touches_only_delegated_slots() {
    let plan = resolve_plan(&delegate_schema(false)).unwrap();
    let mut buffer = vec![Cell::Num(Scalar::Int(8)); 4];
    assert_eq!(fill_default(&plan, &mut buffer, &PairEncoders {}), Ok(()));
    assert_eq!(to_f32(&buffer), vec![8.0, 9.0, 8.0, 8.0]);
    let mut short = vec![Cell::Zero; 3];
    assert_eq!(fill_default(&plan, &mut short, &PairEncoders {}), Err(BufferSizeError));
}

#[test]
fn defaultbool1_encodes_one_boolean() {
    assert_eq!(Defaultbool1::dim(), 1);
    let mut slice = vec![Cell::Zero];
    Defaultbool1::fill_slice(&true, &mut slice);
    assert_eq!(slice[0], Cell::Num(Scalar::Int(1)));
    let mut slice = vec![Cell::Zero];
    Defaultbool1::fill_slice(&false, &mut slice);
    assert_eq!(slice[0], Cell::Zero);
    Defaultbool1::default(&mut slice);
    assert_eq!(slice[0], Cell::Zero);
}

#[test]
fn absent_text_leaves_zeros() {
    let mut kal = plain("kal", FieldKind::Text);
    kal.optional = true;
    kal.attrs.explicit_width = Some(5);
    let plan = resolve_plan(&Schema { fields: vec![kal] }).unwrap();
    let st = Record { values: vec![None] };
    assert_eq!(to_f32(&featurize(&plan, &st, &NoEncoders {})), vec![0.0; 5]);
}
