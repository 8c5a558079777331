use stop::number::parse_u32;
use stop::text::{find_keyword, trim_str};
use stop::{
    escape_csv_field, Decimal, Filter, FilterError, FilterExpr, FilterField, FilterOp, FilterValue,
    Number, ProcessInfo,
};

fn num(text: &str) -> Number {
    Number::parse_literal(text).unwrap()
}

fn dec(text: &str) -> Decimal {
    match num(text) {
        Number::Finite(d) => d,
        other => panic!("not a decimal: {:?}", other),
    }
}

fn record(pid: u32, name: &str, cpu: &str, mem: &str, user: &str) -> ProcessInfo {
    ProcessInfo {
        pid,
        name: name.to_string(),
        cpu_percent: num(cpu),
        memory_bytes: 1024,
        memory_percent: num(mem),
        user: user.to_string(),
        command: "cmd".to_string(),
        thread_count: 1,
        disk_read_bytes: 0,
        disk_write_bytes: 0,
        open_files: None,
    }
}

fn simple(text: &str) -> Filter {
    match FilterExpr::parse(text).unwrap() {
        FilterExpr::Simple(filter) => filter,
        other => panic!("Expected FilterExpr::Simple, got {:?}", other),
    }
}

#[test]
fn test_parse_cpu_filter() {
    let expr = FilterExpr::parse("cpu > 10").unwrap();
    if let FilterExpr::Simple(filter) = expr {
        assert!(matches!(filter.field(), FilterField::Cpu));
        assert!(matches!(filter.op(), FilterOp::Gt));
        assert!(matches!(filter.value(), FilterValue::Float(v) if *v == Number::Finite(Decimal::from_int(10))));
    } else {
        panic!("Expected FilterExpr::Simple");
    }
}

#[test]
fn test_parse_mem_filter() {
    let expr = FilterExpr::parse("mem >= 5.5").unwrap();
    if let FilterExpr::Simple(filter) = expr {
        assert!(matches!(filter.field(), FilterField::Mem));
        assert!(matches!(filter.op(), FilterOp::Gte));
    } else {
        panic!("Expected FilterExpr::Simple");
    }
}

#[test]
fn test_parse_name_filter() {
    let expr = FilterExpr::parse("name == chrome").unwrap();
    if let FilterExpr::Simple(filter) = expr {
        assert!(matches!(filter.field(), FilterField::Name));
        assert!(matches!(filter.op(), FilterOp::Eq));
        assert!(matches!(filter.value(), FilterValue::String { .. }));
    } else {
        panic!("Expected FilterExpr::Simple");
    }
}

#[test]
fn test_invalid_field() {
    let result = FilterExpr::parse("invalid > 10");
    assert!(matches!(result, Err(FilterError::UnknownField(_))));
}

#[test]
fn test_invalid_operator() {
    // ">" is found first, leaving "> 10" as the value
    let result = FilterExpr::parse("cpu >> 10");
    assert!(matches!(result, Err(FilterError::InvalidValue { .. })));
}

#[test]
fn test_type_mismatch() {
    let result = FilterExpr::parse("name > 10");
    assert!(matches!(result, Err(FilterError::TypeMismatch { .. })));
}

#[test]
fn test_invalid_value() {
    let result = FilterExpr::parse("cpu > abc");
    assert!(matches!(result, Err(FilterError::InvalidValue { .. })));
}

#[test]
fn test_empty_expression() {
    let result = FilterExpr::parse("");
    assert!(matches!(result, Err(FilterError::InvalidExpression(_))));
}

#[test]
fn test_and_filter() {
    let expr = FilterExpr::parse("cpu > 10 and mem > 5").unwrap();
    assert!(expr.matches(&record(1, "test", "15.0", "10.0", "user")));
    assert!(!expr.matches(&record(2, "test", "15.0", "3.0", "user")));
    assert!(!expr.matches(&record(3, "test", "5.0", "10.0", "user")));
}

#[test]
fn test_or_filter() {
    let expr = FilterExpr::parse("cpu > 50 or mem > 10").unwrap();
    assert!(expr.matches(&record(1, "test", "60.0", "5.0", "user")));
    assert!(expr.matches(&record(2, "test", "10.0", "15.0", "user")));
    assert!(expr.matches(&record(3, "test", "60.0", "15.0", "user")));
    assert!(!expr.matches(&record(4, "test", "10.0", "5.0", "user")));
}

#[test]
fn test_case_insensitive_keywords() {
    assert!(FilterExpr::parse("cpu > 10 AND mem > 5").is_ok());
    assert!(FilterExpr::parse("cpu > 10 And mem > 5").is_ok());
    assert!(FilterExpr::parse("cpu > 10 and mem > 5").is_ok());

    assert!(FilterExpr::parse("cpu > 10 OR mem > 5").is_ok());
    assert!(FilterExpr::parse("cpu > 10 Or mem > 5").is_ok());
    assert!(FilterExpr::parse("cpu > 10 or mem > 5").is_ok());
}

#[test]
fn test_mixed_and_or_precedence() {
    let expr = FilterExpr::parse("cpu > 50 or mem > 10 and pid < 1000").unwrap();
    assert!(expr.matches(&record(5000, "test", "60.0", "5.0", "user")));
    assert!(expr.matches(&record(500, "test", "10.0", "15.0", "user")));
    assert!(!expr.matches(&record(5000, "test", "10.0", "15.0", "user")));
}

#[test]
fn test_keyword_in_string_values() {
    let expr = FilterExpr::parse("name == android").unwrap();
    assert!(expr.matches(&record(1, "android_app", "10.0", "5.0", "user")));
}

#[test]
fn test_multiple_spaces_in_compound() {
    assert!(FilterExpr::parse("cpu > 10   and   mem > 5").is_ok());
    assert!(FilterExpr::parse("cpu > 10 or  mem > 5").is_ok());
}

#[test]
fn test_empty_condition_in_compound() {
    let result = FilterExpr::parse("cpu > 10 and");
    assert!(result.is_err());

    let result = FilterExpr::parse("or mem > 5");
    assert!(result.is_err());
}

#[test]
fn test_complex_string_filters_with_and_or() {
    let expr = FilterExpr::parse("name == chrome or name == firefox").unwrap();
    assert!(expr.matches(&record(1, "chrome", "10.0", "5.0", "user")));
    assert!(expr.matches(&record(2, "firefox", "10.0", "5.0", "user")));
    assert!(!expr.matches(&record(3, "safari", "10.0", "5.0", "user")));
}

// Filter texts that the command line accepts or refuses.

#[test]
fn test_filter_empty_string() {
    assert!(matches!(FilterExpr::parse(""), Err(FilterError::InvalidExpression(_))));
}

#[test]
fn test_filter_with_quotes_in_string() {
    let filter = simple("name == \"test\\\"process\"");
    match filter.value() {
        FilterValue::String { original, .. } => assert_eq!(original, "\"test\\\"process\""),
        other => panic!("unexpected value {:?}", other),
    }
}

#[test]
fn test_filter_with_unicode() {
    let filter = simple("name == \"tést🚀\"");
    match filter.value() {
        FilterValue::String { original, lowercase } => {
            assert_eq!(original, "\"tést🚀\"");
            assert_eq!(lowercase, "\"tést🚀\"");
        }
        other => panic!("unexpected value {:?}", other),
    }
}

#[test]
fn test_filter_very_long_expression() {
    let mut filter = String::from("cpu > 0");
    for i in 1..50 {
        filter.push_str(&format!(" OR cpu > {}", i));
    }
    let expr = FilterExpr::parse(&filter).unwrap();
    assert!(expr.matches(&record(1, "p", "49.5", "0", "u")));
    assert!(!expr.matches(&record(1, "p", "0", "0", "u")));
}

#[test]
fn test_filter_with_special_chars() {
    assert!(FilterExpr::parse("name == \"test,process;with:special\"").is_ok());
}

#[test]
fn test_filter_name_looks_like_number() {
    let filter = simple("name == \"123\"");
    assert!(matches!(filter.value(), FilterValue::String { .. }));
}

#[test]
fn test_filter_multiple_spaces() {
    let expr = FilterExpr::parse("cpu    >    10    AND    mem   >   5").unwrap();
    assert!(matches!(expr, FilterExpr::And(_, _)));
}

#[test]
fn test_filter_whitespace_in_string() {
    let filter = simple("name == \"  spaces  \"");
    match filter.value() {
        FilterValue::String { original, .. } => assert_eq!(original, "\"  spaces  \""),
        other => panic!("unexpected value {:?}", other),
    }
}

#[test]
fn test_filter_cpu() {
    assert!(FilterExpr::parse("cpu > 0").is_ok());
}

#[test]
fn test_filter_invalid_field() {
    match FilterExpr::parse("invalid > 10") {
        Err(FilterError::UnknownField(name)) => assert_eq!(name, "invalid"),
        other => panic!("unexpected {:?}", other),
    }
}

#[test]
fn test_filter_invalid_operator() {
    assert!(FilterExpr::parse("cpu >> 10").is_err());
}

#[test]
fn test_filter_type_mismatch() {
    match FilterExpr::parse("name > 10") {
        Err(FilterError::TypeMismatch { op, field }) => {
            assert_eq!(op, ">");
            assert_eq!(field, "name");
        }
        other => panic!("unexpected {:?}", other),
    }
}

#[test]
fn test_filter_with_newline_in_command() {
    let expr = FilterExpr::parse("cpu >= 0").unwrap();
    let mut p = record(1, "p", "0", "0", "u");
    p.command = "line one\nline two".to_string();
    assert!(expr.matches(&p));
}

// Field names and operators.

#[test]
fn field_names_ignore_case() {
    for text in ["CPU", "Cpu", "cpu", "cPU"] {
        assert_eq!(FilterField::from_str(text).unwrap(), FilterField::Cpu);
        assert_eq!(simple(&format!("{} > 1", text)).field(), FilterField::Cpu);
    }
    assert_eq!(FilterField::from_str("USER").unwrap(), FilterField::User);
    assert_eq!(FilterField::from_str("Pid").unwrap(), FilterField::Pid);
    assert_eq!(FilterField::from_str("NAME").unwrap(), FilterField::Name);
}

#[test]
fn mem_and_memory_are_one_field() {
    assert_eq!(FilterField::from_str("mem").unwrap(), FilterField::Mem);
    assert_eq!(FilterField::from_str("memory").unwrap(), FilterField::Mem);
    assert_eq!(FilterField::from_str("MEMORY").unwrap(), FilterField::Mem);
    assert_eq!(simple("memory > 5").field(), simple("mem > 5").field());
}

#[test]
fn field_names_and_kinds() {
    assert_eq!(FilterField::Cpu.name(), "cpu");
    assert_eq!(FilterField::Mem.name(), "mem");
    assert_eq!(FilterField::Pid.name(), "pid");
    assert_eq!(FilterField::Name.name(), "name");
    assert_eq!(FilterField::User.name(), "user");
    assert!(FilterField::Pid.is_numeric());
    assert!(!FilterField::User.is_numeric());
    assert!(matches!(FilterField::from_str("cpux"), Err(FilterError::UnknownField(f)) if f == "cpux"));
}

#[test]
fn operators_from_text() {
    assert_eq!(FilterOp::from_str(">").unwrap(), FilterOp::Gt);
    assert_eq!(FilterOp::from_str(">=").unwrap(), FilterOp::Gte);
    assert_eq!(FilterOp::from_str("<").unwrap(), FilterOp::Lt);
    assert_eq!(FilterOp::from_str("<=").unwrap(), FilterOp::Lte);
    assert_eq!(FilterOp::from_str("==").unwrap(), FilterOp::Eq);
    assert_eq!(FilterOp::from_str("!=").unwrap(), FilterOp::Ne);
    assert!(matches!(FilterOp::from_str(">>"), Err(FilterError::UnknownOperator(o)) if o == ">>"));
    assert!(FilterOp::Lte.is_comparison());
    assert!(!FilterOp::Ne.is_comparison());
    assert_eq!(FilterOp::Gte.as_str(), ">=");
}

#[test]
fn equality_operators_accepted_on_every_field() {
    for op in ["==", "!="] {
        assert!(FilterExpr::parse(&format!("cpu {} 10.5", op)).is_ok());
        assert!(FilterExpr::parse(&format!("mem {} 3", op)).is_ok());
        assert!(FilterExpr::parse(&format!("pid {} 42", op)).is_ok());
        assert!(FilterExpr::parse(&format!("name {} chrome", op)).is_ok());
        assert!(FilterExpr::parse(&format!("user {} alice", op)).is_ok());
    }
}

#[test]
fn ordering_operators_need_numeric_fields() {
    for op in [">", ">=", "<", "<="] {
        assert!(FilterExpr::parse(&format!("cpu {} 10.5", op)).is_ok());
        assert!(FilterExpr::parse(&format!("mem {} 3", op)).is_ok());
        assert!(FilterExpr::parse(&format!("pid {} 42", op)).is_ok());
        for field in ["name", "user"] {
            match FilterExpr::parse(&format!("{} {} x", field, op)) {
                Err(FilterError::TypeMismatch { op: o, field: f }) => {
                    assert_eq!(o, op);
                    assert_eq!(f, field);
                }
                other => panic!("unexpected {:?}", other),
            }
        }
    }
}

#[test]
fn operator_preference_order() {
    assert_eq!(simple("cpu >= 1").op(), FilterOp::Gte);
    assert_eq!(simple("cpu <= 1").op(), FilterOp::Lte);
    assert_eq!(simple("pid != 1").op(), FilterOp::Ne);
    assert_eq!(simple("pid == 1").op(), FilterOp::Eq);
    assert_eq!(simple("cpu>1").op(), FilterOp::Gt);
    assert_eq!(simple("cpu<1").op(), FilterOp::Lt);
}

// Errors.

#[test]
fn error_details() {
    let detail = |text: &str| match FilterExpr::parse(text) {
        Err(FilterError::InvalidExpression(d)) => d,
        other => panic!("unexpected {:?}", other),
    };
    assert_eq!(detail("   "), "Empty filter expression");
    assert_eq!(detail("cpu 10"), "No valid operator found. Use: >, >=, <, <=, ==, !=");
    assert_eq!(detail("> 10"), "Missing field before operator");
    assert_eq!(detail("cpu >"), "Missing value after operator");
    match FilterExpr::parse("pid < 12.5") {
        Err(FilterError::InvalidValue { field, value, reason }) => {
            assert_eq!(field, "pid");
            assert_eq!(value, "12.5");
            assert_eq!(reason, "Expected an integer (e.g., 1000)");
        }
        other => panic!("unexpected {:?}", other),
    }
    match FilterExpr::parse("memory > lots") {
        Err(FilterError::InvalidValue { field, value, reason }) => {
            assert_eq!(field, "mem");
            assert_eq!(value, "lots");
            assert_eq!(reason, "Expected a number (e.g., 10 or 5.5)");
        }
        other => panic!("unexpected {:?}", other),
    }
}

#[test]
fn parse_simple_directly() {
    let f = Filter::parse_simple("  pid == 7  ").unwrap();
    assert_eq!(f.field(), FilterField::Pid);
    assert!(matches!(f.value(), FilterValue::Int(7)));
    let copy = f.clone();
    assert_eq!(copy.op(), FilterOp::Eq);
    assert_eq!(copy.value(), f.value());
    assert!(Filter::parse_simple("cpu > 1 and mem > 2").is_err());
}

#[test]
fn left_error_comes_first() {
    match FilterExpr::parse("bogus > 1 and name > 2") {
        Err(FilterError::UnknownField(f)) => assert_eq!(f, "bogus"),
        other => panic!("unexpected {:?}", other),
    }
}

#[test]
fn keyword_as_value_is_split() {
    // A value that is the whole word `or` is read as the connective.
    assert!(FilterExpr::parse("name == or").is_err());
}

// Evaluation.

#[test]
fn cpu_threshold() {
    let expr = FilterExpr::parse("cpu > 10").unwrap();
    assert!(expr.matches(&record(1, "p", "15.0", "0", "u")));
    assert!(!expr.matches(&record(1, "p", "5.0", "0", "u")));
}

#[test]
fn name_matches_case_insensitive_substring() {
    let p = record(1, "Google Chrome Helper", "0", "0", "u");
    assert!(FilterExpr::parse("name == chrome").unwrap().matches(&p));
    assert!(FilterExpr::parse("name == CHROME").unwrap().matches(&p));
    assert!(!FilterExpr::parse("name != chrome").unwrap().matches(&p));
    assert!(FilterExpr::parse("name != firefox").unwrap().matches(&p));
}

#[test]
fn user_matches_exactly() {
    let expr = FilterExpr::parse("user == alice").unwrap();
    assert!(!expr.matches(&record(1, "p", "0", "0", "Alice")));
    assert!(expr.matches(&record(1, "p", "0", "0", "alice")));
    assert!(!expr.matches(&record(1, "p", "0", "0", "alice2")));
    let ne = FilterExpr::parse("user != alice").unwrap();
    assert!(ne.matches(&record(1, "p", "0", "0", "Alice")));
}

#[test]
fn pid_comparisons() {
    let p = record(500, "p", "0", "0", "u");
    assert!(FilterExpr::parse("pid == 500").unwrap().matches(&p));
    assert!(FilterExpr::parse("pid >= 500").unwrap().matches(&p));
    assert!(!FilterExpr::parse("pid > 500").unwrap().matches(&p));
    assert!(FilterExpr::parse("pid <= +500").unwrap().matches(&p));
    assert!(!FilterExpr::parse("pid != 500").unwrap().matches(&p));
    assert!(FilterExpr::parse("pid < 4294967295").unwrap().matches(&p));
}

#[test]
fn float_equality_uses_epsilon() {
    let p = record(1, "p", "10", "2.5", "u");
    assert!(FilterExpr::parse("cpu == 10.0000001").unwrap().matches(&p));
    assert!(!FilterExpr::parse("cpu == 10.0000002").unwrap().matches(&p));
    assert!(FilterExpr::parse("cpu != 10.0000002").unwrap().matches(&p));
    assert!(FilterExpr::parse("mem == 2.5").unwrap().matches(&p));
    assert!(FilterExpr::parse("mem <= 2.5").unwrap().matches(&p));
    assert!(FilterExpr::parse("mem > -1").unwrap().matches(&p));
}

#[test]
fn both_conditions_for_and_either_for_or() {
    let and = FilterExpr::parse("cpu > 10 and mem > 5").unwrap();
    let or = FilterExpr::parse("cpu > 50 or mem > 10").unwrap();
    for (cpu, mem) in [("0", "0"), ("11", "0"), ("0", "6"), ("11", "6"), ("60", "0"), ("0", "11")] {
        let p = record(1, "p", cpu, mem, "u");
        let c = dec(cpu).units();
        let m = dec(mem).units();
        let one = Decimal::from_int(1).units();
        assert_eq!(and.matches(&p), c > 10 * one && m > 5 * one);
        assert_eq!(or.matches(&p), c > 50 * one || m > 10 * one);
    }
}

#[test]
fn or_binds_loosest() {
    match FilterExpr::parse("cpu > 50 or mem > 10 and pid < 1000").unwrap() {
        FilterExpr::Or(l, r) => {
            assert!(matches!(*l, FilterExpr::Simple(_)));
            assert!(matches!(*r, FilterExpr::And(_, _)));
        }
        other => panic!("unexpected {:?}", other),
    }
    match FilterExpr::parse("cpu > 1 or mem > 2 or pid > 3").unwrap() {
        FilterExpr::Or(l, r) => {
            assert!(matches!(*l, FilterExpr::Simple(_)));
            assert!(matches!(*r, FilterExpr::Or(_, _)));
        }
        other => panic!("unexpected {:?}", other),
    }
}

#[test]
fn parsing_twice_evaluates_alike() {
    let text = "cpu > 50 or mem > 10 and pid < 1000";
    let a = FilterExpr::parse(text).unwrap();
    let b = FilterExpr::parse(text).unwrap();
    for (pid, cpu, mem) in [(5000, "60", "5"), (500, "10", "15"), (5000, "10", "15"), (1, "0", "0")] {
        let p = record(pid, "test", cpu, mem, "user");
        assert_eq!(a.matches(&p), b.matches(&p));
    }
}

#[test]
fn evaluation_is_repeatable() {
    let expr = FilterExpr::parse("name == chrome and user != root").unwrap();
    let p = record(1, "chrome", "1", "1", "alice");
    let first = expr.matches(&p);
    for _ in 0..5 {
        assert_eq!(expr.matches(&p), first);
    }
    assert!(first);
}

// Numbers.

#[test]
fn number_literals() {
    let one = Decimal::from_int(1).units();
    assert_eq!(one, 1_000_000_000_000_000_000);
    assert_eq!(dec("5.5").units(), 5 * one + one / 2);
    assert_eq!(dec("-3").units(), -3 * one);
    assert_eq!(dec("+.25").units(), one / 4);
    assert_eq!(dec("7.").units(), 7 * one);
    assert_eq!(dec("0.000000000000000001").units(), 1);
    assert_eq!(dec("999999999999999999").units(), 999_999_999_999_999_999 * one);
    for bad in ["", ".", "-", "+", "e3", "1e", "1e+", "1.2.3", "abc", " 1", "1 ", "--1", "infx", "na"] {
        assert!(Number::parse_literal(bad).is_none(), "{bad}");
    }
}

#[test]
fn number_literals_with_exponents() {
    let one = Decimal::from_int(1).units();
    assert_eq!(dec("1e3").units(), 1000 * one);
    assert_eq!(dec("1E3").units(), 1000 * one);
    assert_eq!(dec("2.5e-1").units(), one / 4);
    assert_eq!(dec("-1.5E+2").units(), -150 * one);
    assert_eq!(dec("1.e2").units(), 100 * one);
    assert_eq!(dec(".5e1").units(), 5 * one);
    assert_eq!(dec("1e-18").units(), 1);
    assert_eq!(dec("0e999999999999999999999999999999999999").units(), 0);
    assert_eq!(dec("1e-999999999999999999999999999999999999").units(), 0);
}

#[test]
fn number_literals_round_and_saturate() {
    let max = 999_999_999_999_999_999_999_999_999_999_999_999i128;
    // Digits past the eighteenth place round, halves away from zero.
    assert_eq!(dec("0.0000000000000000004").units(), 0);
    assert_eq!(dec("0.0000000000000000005").units(), 1);
    assert_eq!(dec("-0.0000000000000000015").units(), -2);
    assert_eq!(dec("1.23456789012345678949").units(), 1_234_567_890_123_456_789);
    assert_eq!(dec("1e-19").units(), 0);
    assert_eq!(dec("5e-19").units(), 1);
    // Magnitudes of 10^18 and more saturate.
    assert_eq!(dec("1000000000000000000").units(), max);
    assert_eq!(dec("1e39").units(), max);
    assert_eq!(dec("-3.4e38").units(), -max);
    assert_eq!(dec("1e999999999999999999999999999999999999").units(), max);
}

#[test]
fn number_literals_infinite_and_nan() {
    assert_eq!(num("inf"), Number::PosInf);
    assert_eq!(num("Infinity"), Number::PosInf);
    assert_eq!(num("+INF"), Number::PosInf);
    assert_eq!(num("-inf"), Number::NegInf);
    assert_eq!(num("-InFiNiTy"), Number::NegInf);
    assert_eq!(num("NaN"), Number::NaN);
    assert_eq!(num("-nan"), Number::NaN);
}

#[test]
fn float_fields_take_every_float_literal() {
    for value in ["1e3", "1E-2", "inf", "-infinity", "NaN", "0.00000000000000000000001", "1e40"] {
        for op in ["==", "!=", ">", ">=", "<", "<="] {
            assert!(FilterExpr::parse(&format!("cpu {} {}", op, value)).is_ok(), "{op} {value}");
            assert!(FilterExpr::parse(&format!("mem {} {}", op, value)).is_ok(), "{op} {value}");
        }
    }
    let p = record(1, "p", "1500", "0", "u");
    assert!(FilterExpr::parse("cpu > 1e3").unwrap().matches(&p));
    assert!(FilterExpr::parse("cpu == 1.5e3").unwrap().matches(&p));
}

#[test]
fn comparisons_with_infinities_and_nan() {
    let p = record(1, "p", "50", "0", "u");
    assert!(FilterExpr::parse("cpu < inf").unwrap().matches(&p));
    assert!(FilterExpr::parse("cpu > -inf").unwrap().matches(&p));
    assert!(FilterExpr::parse("cpu != inf").unwrap().matches(&p));
    assert!(!FilterExpr::parse("cpu == inf").unwrap().matches(&p));
    for op in ["==", "!=", ">", ">=", "<", "<="] {
        let expr = FilterExpr::parse(&format!("cpu {} nan", op)).unwrap();
        assert!(!expr.matches(&p), "{op}");
        let q = record(1, "p", "nan", "0", "u");
        let expr = FilterExpr::parse(&format!("cpu {} 1", op)).unwrap();
        assert!(!expr.matches(&q), "{op}");
    }
    let hot = record(1, "p", "inf", "0", "u");
    assert!(FilterExpr::parse("cpu >= inf").unwrap().matches(&hot));
    assert!(!FilterExpr::parse("cpu != inf").unwrap().matches(&hot));
    assert!(!FilterExpr::parse("cpu == inf").unwrap().matches(&hot));
    assert!(FilterExpr::parse("cpu != -inf").unwrap().matches(&hot));
}

#[test]
fn decimal_epsilon() {
    assert!(dec("1").approx_eq(&dec("1.0000001")));
    assert!(!dec("1").approx_eq(&dec("1.0000002")));
    assert!(dec("0.000000119209289550").approx_eq(&dec("0")));
    assert!(!dec("0.000000119209289551").approx_eq(&dec("0")));
}

#[test]
fn integer_literals() {
    assert_eq!(parse_u32("42"), Some(42));
    assert_eq!(parse_u32("+42"), Some(42));
    assert_eq!(parse_u32("007"), Some(7));
    assert_eq!(parse_u32("4294967295"), Some(u32::MAX));
    assert_eq!(parse_u32("4294967296"), None);
    assert_eq!(parse_u32("-1"), None);
    assert_eq!(parse_u32("+"), None);
    assert_eq!(parse_u32(""), None);
    assert_eq!(parse_u32("12a"), None);
}

// Text helpers and CSV.

#[test]
fn trimming_and_keywords() {
    assert_eq!(trim_str("  \t a b \n"), "a b");
    assert_eq!(trim_str("\u{3000}x\u{a0}"), "x");
    assert_eq!(find_keyword("name == android", "and"), None);
    assert_eq!(find_keyword("cpu > 1 AnD mem > 2", "and"), Some(8));
    assert_eq!(find_keyword("orange or", "or"), Some(7));
    assert_eq!(find_keyword("or", "or"), Some(0));
    assert_eq!(find_keyword("and", "AND"), Some(0));
    assert_eq!(find_keyword("x AnD y", "aNd"), Some(2));
}

#[test]
fn csv_escaping() {
    assert_eq!(escape_csv_field("plain"), "plain");
    assert_eq!(escape_csv_field(""), "");
    assert_eq!(escape_csv_field("a,b"), "\"a,b\"");
    assert_eq!(escape_csv_field("say \"hi\""), "\"say \"\"hi\"\"\"");
    assert_eq!(escape_csv_field("two\nlines"), "\"two\nlines\"");
    assert_eq!(escape_csv_field("cr\r"), "\"cr\r\"");
}
