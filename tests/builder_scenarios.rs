use query_builder::arguments::{ArgumentBuffer, BindValue, EncodedArguments};
use query_builder::builder::QueryBuilder;
use query_builder::placeholder::{write_decimal, write_placeholder, Dialect};
use sqlx::Arguments;

fn ints(v: &[i64]) -> Vec<BindValue> {
    v.iter().map(|i| BindValue::Int(*i)).collect()
}

#[test]
fn separated_list_has_no_leading_or_trailing_separator() {
    let mut qb = QueryBuilder::new("", Dialect::Ordinal);
    {
        let mut sep = qb.separated(", ");
        for s in ["a", "b", "c"] {
            sep.push(s);
        }
    }
    assert_eq!(qb.sql(), "a, b, c");
    assert!(qb.finalize().1.values().is_empty());
}

#[test]
fn push_unseparated_never_adds_separator() {
    let mut qb = QueryBuilder::new("(", Dialect::Ordinal);
    {
        let mut sep = qb.separated(", ");
        sep.push_unseparated("x");
        sep.push("a");
        sep.push_unseparated(")");
        sep.push_unseparated(")");
    }
    assert_eq!(qb.sql(), "(xa))");
}

#[test]
fn numbered_placeholders_count_from_one() {
    let mut qb = QueryBuilder::new("", Dialect::Numbered);
    qb.push_bind(BindValue::Int(1)).unwrap();
    assert_eq!(qb.sql(), "$1");
    qb.push_bind(BindValue::Int(2)).unwrap();
    assert_eq!(qb.sql(), "$1$2");
}

#[test]
fn ordinal_placeholders_are_question_marks() {
    let mut qb = QueryBuilder::new("SELECT ", Dialect::Ordinal);
    qb.push_bind(BindValue::Int(7)).unwrap();
    qb.push(" + ");
    qb.push_bind(BindValue::Text("x".to_string())).unwrap();
    assert_eq!(qb.sql(), "SELECT ? + ?");
    let (text, args) = qb.finalize();
    assert_eq!(text, "SELECT ? + ?");
    assert_eq!(args.values(), &vec![BindValue::Int(7), BindValue::Text("x".to_string())]);
}

#[test]
fn in_list_end_to_end() {
    let mut qb = QueryBuilder::new("SELECT * FROM t WHERE id IN (", Dialect::Numbered);
    {
        let mut sep = qb.separated(", ");
        for v in [1, 2, 3] {
            sep.push_bind(BindValue::Int(v)).unwrap();
        }
        sep.push_unseparated(")");
    }
    let (text, args) = qb.finalize();
    assert_eq!(text, "SELECT * FROM t WHERE id IN ($1, $2, $3)");
    assert_eq!(args.values(), &ints(&[1, 2, 3]));
    let (values, encoded) = args.into_parts();
    assert_eq!(values, ints(&[1, 2, 3]));
    match encoded {
        EncodedArguments::Numbered(pg) => assert_eq!(Arguments::len(&pg), 3),
        EncodedArguments::Ordinal(_) => panic!("wrong dialect"),
    }
}

#[test]
fn separated_bind_and_push_mix() {
    let mut qb = QueryBuilder::new("VALUES ", Dialect::Numbered);
    {
        let mut sep = qb.separated(", ");
        sep.push("(");
        sep.push_bind_unseparated(BindValue::Int(10)).unwrap();
        sep.push_unseparated(")");
        sep.push_bind(BindValue::Text("t".to_string())).unwrap();
    }
    assert_eq!(qb.sql(), "VALUES ($1), $2");
}

#[test]
fn reset_restores_prefix_and_drops_arguments() {
    let mut qb = QueryBuilder::new("SELECT 1", Dialect::Numbered);
    qb.push(" WHERE a = ");
    qb.push_bind(BindValue::Int(5)).unwrap();
    let _ = qb.finalize();
    assert!(qb.is_finalized());
    assert_eq!(qb.sql(), "SELECT 1 WHERE a = $1");
    qb.reset();
    assert!(!qb.is_finalized());
    let (text, args) = qb.finalize();
    assert_eq!(text, "SELECT 1");
    assert!(args.values().is_empty());
    assert_eq!(args.len(), 0);
}

#[test]
fn reset_then_bind_numbers_from_one_again() {
    let mut qb = QueryBuilder::new("x = ", Dialect::Numbered);
    qb.push_bind(BindValue::Int(1)).unwrap();
    qb.push_bind(BindValue::Int(2)).unwrap();
    qb.reset();
    qb.push_bind(BindValue::Int(3)).unwrap();
    assert_eq!(qb.into_sql(), "x = $1");
}

#[test]
fn fragment_text_and_arguments_appended_once() {
    let mut qb = QueryBuilder::new("SELECT * FROM t WHERE a = ", Dialect::Numbered);
    qb.push_bind(BindValue::Int(1)).unwrap();
    let mut frag = QueryBuilder::new(" AND b = ", Dialect::Numbered);
    frag.push_bind(BindValue::Text("z".to_string())).unwrap();
    frag.push_bind(BindValue::Int(9)).unwrap();
    qb.push_fragment(frag);
    assert_eq!(qb.sql(), "SELECT * FROM t WHERE a = $1 AND b = $1$2");
    let (_, args) = qb.finalize();
    assert_eq!(
        args.values(),
        &vec![BindValue::Int(1), BindValue::Text("z".to_string()), BindValue::Int(9)]
    );
    assert_eq!(args.len(), 3);
}

#[test]
fn ordinal_fragment_merged_with_its_arguments() {
    let mut qb = QueryBuilder::new("a", Dialect::Ordinal);
    let mut frag = QueryBuilder::new("b", Dialect::Ordinal);
    frag.push_bind(BindValue::Bool(true)).unwrap();
    qb.push_fragment(frag);
    qb.push_bind(BindValue::Int(5)).unwrap();
    assert_eq!(qb.sql(), "ab??");
    let (_, args) = qb.finalize();
    assert_eq!(args.dialect(), Dialect::Ordinal);
    assert_eq!(args.values(), &vec![BindValue::Bool(true), BindValue::Int(5)]);
    match args.into_parts().1 {
        EncodedArguments::Ordinal(any) => assert_eq!(Arguments::len(&any), 2),
        EncodedArguments::Numbered(_) => panic!("wrong dialect"),
    }
}

#[test]
fn ordinal_binds_two_question_marks() {
    let mut qb = QueryBuilder::new("", Dialect::Ordinal);
    qb.push_bind(BindValue::Int(1)).unwrap();
    qb.push_bind(BindValue::Int(2)).unwrap();
    assert_eq!(qb.sql(), "??");
}

#[test]
fn ordinal_separated_text_list() {
    let mut qb = QueryBuilder::new("SELECT * from food where name in (", Dialect::Ordinal);
    {
        let mut sep = qb.separated(", ");
        for food in ["pizza", "chips"] {
            sep.push_bind(BindValue::Text(food.to_string())).unwrap();
        }
        sep.push_unseparated(") ");
    }
    let (text, args) = qb.finalize();
    assert_eq!(text, "SELECT * from food where name in (?, ?) ");
    assert_eq!(
        args.values(),
        &vec![BindValue::Text("pizza".to_string()), BindValue::Text("chips".to_string())]
    );
}

#[test]
fn reset_then_bind_gives_first_placeholder() {
    let mut qb = QueryBuilder::new("SELECT ", Dialect::Numbered);
    qb.push("x = ");
    qb.push_bind(BindValue::Int(1)).unwrap();
    qb.reset();
    assert_eq!(qb.sql(), "SELECT ");
    qb.push_bind(BindValue::Int(7)).unwrap();
    assert_eq!(qb.sql(), "SELECT $1");
}

#[test]
fn bool_binds_in_numbered_dialect() {
    let mut qb = QueryBuilder::new("flag = ", Dialect::Numbered);
    qb.push_bind(BindValue::Bool(false)).unwrap();
    let (text, args) = qb.finalize();
    assert_eq!(text, "flag = $1");
    match args.into_parts().1 {
        EncodedArguments::Numbered(pg) => assert_eq!(Arguments::len(&pg), 1),
        EncodedArguments::Ordinal(_) => panic!("wrong dialect"),
    }
}

#[test]
fn with_arguments_continues_numbering() {
    let mut args = ArgumentBuffer::new(Dialect::Numbered);
    args.add(BindValue::Int(1)).unwrap();
    let mut qb = QueryBuilder::with_arguments("a = $1 AND b = ", args);
    qb.push_bind(BindValue::Int(2)).unwrap();
    assert_eq!(qb.sql(), "a = $1 AND b = $2");
    assert_eq!(qb.dialect(), Dialect::Numbered);
    qb.reset();
    assert_eq!(qb.sql(), "a = $1 AND b = ");
}

#[test]
fn buffer_placeholder_follows_count() {
    let mut args = ArgumentBuffer::new(Dialect::Numbered);
    for i in 0..12 {
        args.add(BindValue::Int(i)).unwrap();
    }
    args.reserve(4);
    let mut out = String::from("x");
    args.format_placeholder(&mut out);
    assert_eq!(out, "x$12");
    assert_eq!(args.len(), 12);
}

#[test]
fn buffer_append_keeps_order() {
    let mut a = ArgumentBuffer::new(Dialect::Ordinal);
    a.add(BindValue::Int(1)).unwrap();
    let mut b = ArgumentBuffer::new(Dialect::Ordinal);
    b.add(BindValue::Int(2)).unwrap();
    b.add(BindValue::Int(3)).unwrap();
    a.append(b).unwrap();
    assert_eq!(a.values(), &ints(&[1, 2, 3]));
    assert_eq!(a.len(), 3);
}

#[test]
fn decimal_and_placeholder_text() {
    let mut s = String::new();
    write_decimal(&mut s, 0);
    write_decimal(&mut s, 65535);
    assert_eq!(s, "065535");
    let mut p = String::new();
    write_placeholder(&mut p, Dialect::Numbered, 107);
    write_placeholder(&mut p, Dialect::Ordinal, 3);
    assert_eq!(p, "$107?");
}

#[test]
fn empty_prefix_and_empty_push() {
    let mut qb = QueryBuilder::new("", Dialect::Ordinal);
    qb.push("");
    assert_eq!(qb.sql(), "");
    qb.reset();
    assert_eq!(qb.into_sql(), "");
}

#[test]
fn mixed_pushes_keep_placeholders_in_step_with_arguments() {
    let mut qb = QueryBuilder::new("UPDATE t SET ", Dialect::Numbered);
    qb.push("a = ");
    qb.push_bind(BindValue::Int(10)).unwrap();
    qb.push(", b = ");
    qb.push_bind(BindValue::Text("bee".to_string())).unwrap();
    qb.push(" WHERE id = ");
    qb.push_bind(BindValue::Int(3)).unwrap();
    let (text, args) = qb.finalize();
    assert_eq!(text, "UPDATE t SET a = $1, b = $2 WHERE id = $3");
    assert_eq!(
        args.values(),
        &vec![BindValue::Int(10), BindValue::Text("bee".to_string()), BindValue::Int(3)]
    );
    assert_eq!(text.matches('$').count(), args.len());
}
