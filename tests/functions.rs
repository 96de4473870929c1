use any_cards::collection::{container_length, flatten, is_container};
use any_cards::context::CWH;
use any_cards::error::{FnError, StrErr};
use any_cards::numeric;
use any_cards::select::select;
use any_cards::svg::{fill_stroke, font, rect_geometry};
use any_cards::text::{display_string, escape, join};
use any_cards::value::{as_go_v, CardDatum, DynamicValue, Number};
use any_cards::wrap::wrap;

fn num(i: i64) -> DynamicValue {
    DynamicValue::Number(Number::from_i64(i))
}

fn text(s: &str) -> DynamicValue {
    DynamicValue::Text(s.to_string())
}

fn mapping(entries: &[(&str, DynamicValue)]) -> DynamicValue {
    DynamicValue::Mapping(entries.iter().map(|(k, v)| (k.to_string(), v.clone())).collect())
}

#[test]
fn add_of_nothing_is_zero() {
    assert_eq!(numeric::add(&[]), Ok(num(0)));
}

#[test]
fn multiply_of_nothing_is_one() {
    assert_eq!(numeric::multiply(&[]), Ok(num(1)));
}

#[test]
fn add_of_two_integers_stays_integer() {
    assert_eq!(numeric::add(&[num(2), num(3)]), Ok(DynamicValue::Number(Number::Unsigned(5))));
}

#[test]
fn add_mixes_signs() {
    assert_eq!(numeric::add(&[num(2), num(-7)]), Ok(DynamicValue::Number(Number::Signed(-5))));
    assert_eq!(numeric::add(&[num(-2), num(7)]), Ok(DynamicValue::Number(Number::Unsigned(5))));
}

#[test]
fn multiply_of_three() {
    assert_eq!(numeric::multiply(&[num(2), num(-3), num(4)]), Ok(num(-24)));
}

#[test]
fn add_moves_to_unsigned_past_the_signed_range() {
    let big = DynamicValue::Number(Number::Unsigned(i64::MAX as u64));
    assert_eq!(
        numeric::add(&[big, num(1)]),
        Ok(DynamicValue::Number(Number::Unsigned(i64::MAX as u64 + 1)))
    );
}

#[test]
fn add_of_large_unsigned_and_negative_is_incompatible() {
    let big = DynamicValue::Number(Number::Unsigned(u64::MAX));
    assert_eq!(numeric::add(&[big, num(-1)]), Err(FnError::IncompatibleNumeric));
}

#[test]
fn multiply_past_the_unsigned_range_is_incompatible() {
    let big = DynamicValue::Number(Number::Unsigned(u64::MAX));
    assert_eq!(numeric::multiply(&[big, num(2)]), Err(FnError::IncompatibleNumeric));
}

#[test]
fn add_of_text_is_not_a_number() {
    assert_eq!(numeric::add(&[num(1), text("x"), num(2)]), Err(FnError::NotANumber(text("x"))));
}

#[test]
fn select_zero_is_truthy() {
    assert_eq!(select(&[num(0), text("a"), text("b")]), Ok(text("a")));
}

#[test]
fn select_negative_is_falsy() {
    assert_eq!(select(&[num(-1), text("a"), text("b")]), Ok(text("b")));
}

#[test]
fn select_empty_text_is_falsy() {
    assert_eq!(select(&[text(""), text("a"), text("b")]), Ok(text("b")));
}

#[test]
fn select_empty_sequence_is_falsy() {
    assert_eq!(select(&[DynamicValue::Sequence(vec![]), text("a"), text("b")]), Ok(text("b")));
}

#[test]
fn select_other_conditions() {
    assert_eq!(select(&[DynamicValue::Boolean(true), num(1), num(2)]), Ok(num(1)));
    assert_eq!(select(&[DynamicValue::Null, num(1), num(2)]), Ok(num(2)));
    assert_eq!(select(&[DynamicValue::Missing, num(1), num(2)]), Ok(num(2)));
    assert_eq!(select(&[mapping(&[("a", num(1))]), num(1), num(2)]), Ok(num(1)));
    assert_eq!(select(&[mapping(&[]), num(1), num(2)]), Ok(num(2)));
}

#[test]
fn select_else_defaults_to_empty_text() {
    assert_eq!(select(&[DynamicValue::Boolean(false), text("a")]), Ok(text("")));
}

#[test]
fn select_errors() {
    assert_eq!(select(&[]), Err(FnError::NotBooleanable));
    assert_eq!(select(&[DynamicValue::Boolean(true)]), Err(FnError::ThenMissing));
}

#[test]
fn escape_markup() {
    assert_eq!(escape(&[text("<a&b>")]), Ok(text("&lt;a&amp;b&gt;")));
    assert_eq!(escape(&[text("\"it's\"")]), Ok(text("&quot;it&apos;s&quot;")));
}

#[test]
fn escape_twice_escapes_twice() {
    let once = escape(&[text("<")]).unwrap();
    assert_eq!(once, text("&lt;"));
    assert_eq!(escape(&[once]), Ok(text("&amp;lt;")));
}

#[test]
fn escape_joins_display_forms() {
    assert_eq!(escape(&[num(3), text("é<"), DynamicValue::Boolean(true)]), Ok(text("3é&lt;true")));
}

#[test]
fn concat_keeps_markup() {
    assert_eq!(any_cards::text::concat(&[text("<g>"), num(-12), DynamicValue::Null]), Ok(text("<g>-12nil")));
    assert_eq!(any_cards::text::concat(&[]), Ok(text("")));
}

#[test]
fn flatten_mapping_gives_values() {
    let m = mapping(&[("x", num(1)), ("y", num(2))]);
    let r = flatten(&[m]).unwrap();
    match r {
        DynamicValue::Sequence(items) => {
            assert_eq!(items.len(), 2);
            assert!(items.contains(&num(1)));
            assert!(items.contains(&num(2)));
        }
        other => panic!("not a sequence: {:?}", other),
    }
}

#[test]
fn join_does_not_expand_mappings() {
    let m = mapping(&[("x", num(1)), ("y", num(2))]);
    let shown = display_string(&m);
    assert_eq!(shown, "{x: 1, y: 2}");
    assert_eq!(join(&[text(","), m]), Ok(text(&shown)));
    assert_ne!(shown, "1,2");
}

#[test]
fn join_descends_into_sequences() {
    let nested = DynamicValue::Sequence(vec![num(1), DynamicValue::Sequence(vec![num(2), num(3)])]);
    assert_eq!(join(&[text(","), nested, text("a")]), Ok(text("1,2,3,a")));
}

#[test]
fn join_needs_separator_and_value() {
    assert_eq!(join(&[]), Err(FnError::NothingToJoin));
    assert_eq!(join(&[text(",")]), Err(FnError::NothingToJoin));
}

#[test]
fn flatten_mixed_arguments() {
    let r = flatten(&[
        DynamicValue::Sequence(vec![num(1), num(2)]),
        DynamicValue::Null,
        text("t"),
        DynamicValue::Missing,
    ]);
    assert_eq!(r, Ok(DynamicValue::Sequence(vec![num(1), num(2), text("t")])));
    assert_eq!(flatten(&[]), Err(FnError::EmptyInput));
}

#[test]
fn container_length_sums_containers() {
    let list = DynamicValue::Sequence(vec![num(1), num(2), num(3)]);
    let m = mapping(&[("a", num(1))]);
    assert_eq!(
        container_length(&[list, text("text"), m]),
        DynamicValue::Number(Number::Unsigned(4))
    );
    assert_eq!(container_length(&[]), DynamicValue::Number(Number::Unsigned(0)));
}

#[test]
fn is_container_checks_kind_and_arity() {
    assert_eq!(is_container(&[DynamicValue::Sequence(vec![])]), Ok(DynamicValue::Boolean(true)));
    assert_eq!(is_container(&[mapping(&[])]), Ok(DynamicValue::Boolean(true)));
    assert_eq!(is_container(&[text("a")]), Ok(DynamicValue::Boolean(false)));
    assert_eq!(is_container(&[]), Err(FnError::ArityError));
    assert_eq!(is_container(&[num(1), num(2)]), Err(FnError::ArityError));
}

#[test]
fn converted_list_flattens_to_its_items() {
    let d = CardDatum::List(vec![
        CardDatum::Integer(7),
        CardDatum::Text("a".to_string()),
        CardDatum::List(vec![CardDatum::Integer(-2), CardDatum::Reference("r".to_string())]),
    ]);
    let v = as_go_v(&d);
    assert_eq!(
        flatten(&[v]),
        Ok(DynamicValue::Sequence(vec![
            num(7),
            text("a"),
            DynamicValue::Sequence(vec![num(-2), text("r")]),
        ]))
    );
}

#[test]
fn rect_geometry_builds_attributes() {
    assert_eq!(
        rect_geometry(&[num(1), num(2), num(30), text("4")]),
        Ok(text("x=\"1px\" y=\"2px\" width=\"30px\" height=\"4px\" "))
    );
    assert_eq!(rect_geometry(&[]), Err(FnError::XMissing));
    assert_eq!(rect_geometry(&[num(1)]), Err(FnError::YMissing));
    assert_eq!(rect_geometry(&[num(1), num(2)]), Err(FnError::WMissing));
    assert_eq!(rect_geometry(&[num(1), num(2), num(3)]), Err(FnError::HMissing));
}

#[test]
fn fill_stroke_builds_attributes() {
    assert_eq!(
        fill_stroke(&[text("red"), text("black"), num(2)]),
        Ok(text("fill=\"red\" stroke=\"black\" stroke-width=\"2px\" "))
    );
    assert_eq!(fill_stroke(&[]), Err(FnError::FillMissing));
    assert_eq!(fill_stroke(&[text("red")]), Err(FnError::StrokeMissing));
    assert_eq!(fill_stroke(&[text("red"), text("black")]), Err(FnError::StrokeWidthMissing));
}

#[test]
fn font_with_and_without_family() {
    assert_eq!(font(&[num(12)]), Ok(text("font-size=\"12px\" ")));
    assert_eq!(
        font(&[num(12), text("serif")]),
        Ok(text("font-size=\"12px\" font-family=\"serif\" "))
    );
    assert_eq!(font(&[]), Err(FnError::SizeMissing));
}

#[test]
fn wrap_packs_words() {
    assert_eq!(
        wrap(&[text("hello everybody"), num(6)]),
        Ok(DynamicValue::Sequence(vec![text("hello"), text("everyb-"), text("ody")]))
    );
    assert_eq!(
        wrap(&[text("hi to the people i know"), num(6)]),
        Ok(DynamicValue::Sequence(vec![text("hi to"), text("the"), text("people"), text("i know")]))
    );
}

#[test]
fn wrap_rejects_bad_arguments() {
    assert_eq!(wrap(&[text("abc"), num(-1)]), Err(FnError::InvalidArgument));
    assert_eq!(wrap(&[text("abc"), text("3")]), Err(FnError::InvalidArgument));
    assert_eq!(wrap(&[num(1), num(3)]), Err(FnError::InvalidArgument));
    assert_eq!(wrap(&[text("abc")]), Err(FnError::InvalidArgument));
    assert_eq!(wrap(&[text("éé"), num(1)]), Err(FnError::InvalidArgument));
}

#[test]
fn display_forms() {
    assert_eq!(display_string(&DynamicValue::Missing), "<no value>");
    assert_eq!(display_string(&DynamicValue::Boolean(false)), "false");
    assert_eq!(display_string(&DynamicValue::Number(Number::Signed(i64::MIN))), "-9223372036854775808");
    assert_eq!(display_string(&DynamicValue::Number(Number::Unsigned(u64::MAX))), "18446744073709551615");
    assert_eq!(display_string(&DynamicValue::Sequence(vec![num(1), text("a")])), "[1, a]");
}

#[test]
fn context_holds_card_fields() {
    let data = vec![
        ("cost".to_string(), CardDatum::Integer(3)),
        ("tags".to_string(), CardDatum::List(vec![CardDatum::Text("x".to_string())])),
    ];
    let c = CWH::new("goblin".to_string(), Number::Unsigned(50), Number::Unsigned(70), 2, 1, data);
    let v = c.to_value();
    let expected = mapping(&[
        ("name", text("goblin")),
        ("w", num(50)),
        ("h", num(70)),
        ("n", num(2)),
        ("n_of_type", num(1)),
        ("data", mapping(&[("cost", num(3)), ("tags", DynamicValue::Sequence(vec![text("x")]))])),
    ]);
    assert_eq!(v, expected);
}

#[test]
fn context_without_counters() {
    let c = CWH::without_counters("a".to_string(), Number::Unsigned(1), Number::Unsigned(2), vec![]);
    assert_eq!(
        c.to_value(),
        mapping(&[("name", text("a")), ("w", num(1)), ("h", num(2)), ("data", mapping(&[]))])
    );
}

#[test]
fn str_err_extends_message() {
    let e = StrErr::from_message("bad".to_string()).ext(" on card x");
    assert_eq!(e.0, "bad on card x");
    assert_eq!(e.to_message(), "Template Error: bad on card x");
}
