use rustxl::arith::{parse_arithmetic, Arith, ArithOp};
use rustxl::args::{split_function_args, split_on, split_words};
use rustxl::criteria::{
    criteria_body, criteria_comparisons, criteria_text_matches, split_condition, CompareOp,
};
use rustxl::dispatch::{classify_formula, formula_expression, FunctionKind};
use rustxl::lookup::{sumif_pairs, vlookup_layout, vlookup_match, KeyFacts, LookupError};
use rustxl::range::{aggregate_operands, collect_range_cells, Operand};
use rustxl::sheet::Spreadsheet;
use rustxl::text::{strip_quotes, trim};
use rustxl::textfns::{
    bool_word, bool_word_folded, is_error_text, left_text, len_text, lower_text, mid_text, proper_text,
    right_text, trim_text, truthy_folded, truthy_text, upper_text,
};

/// The text an argument stands for when it needs no arithmetic: a quoted
/// literal without its quotes, a cell's text, or the argument itself.
fn text_arg(sheet: &Spreadsheet, arg: &str) -> String {
    let a = trim(arg);
    let unquoted = strip_quotes(&a);
    if unquoted != a {
        return unquoted;
    }
    match sheet.parse_cell_ref(&a) {
        Some((r, c)) => sheet.get_cell(r, c).to_string(),
        None => a,
    }
}

fn call(formula: &str, expected: FunctionKind) -> Vec<String> {
    let (kind, inner) = classify_formula(formula).unwrap();
    assert_eq!(kind, expected);
    split_function_args(&inner)
}

fn number(arg: &str) -> usize {
    trim(arg).parse::<f64>().unwrap() as usize
}

fn eval_left(sheet: &Spreadsheet, f: &str) -> String {
    let a = call(f, FunctionKind::Left);
    left_text(&text_arg(sheet, &a[0]), number(&a[1]))
}

fn eval_right(sheet: &Spreadsheet, f: &str) -> String {
    let a = call(f, FunctionKind::Right);
    right_text(&text_arg(sheet, &a[0]), number(&a[1]))
}

fn eval_mid(sheet: &Spreadsheet, f: &str) -> String {
    let a = call(f, FunctionKind::Mid);
    mid_text(&text_arg(sheet, &a[0]), number(&a[1]), number(&a[2]))
}

fn eval_one(sheet: &Spreadsheet, f: &str, kind: FunctionKind) -> String {
    let a = call(f, kind);
    assert_eq!(a.len(), 1);
    text_arg(sheet, &a[0])
}

/// The numeric values of an aggregate's operands.
fn values(sheet: &Spreadsheet, args: &str) -> Option<Vec<f64>> {
    let ops = aggregate_operands(args)?;
    let mut out = Vec::new();
    for op in ops {
        match op {
            Operand::Cell(r, c) => {
                if let Ok(v) = sheet.get_cell(r, c).parse::<f64>() {
                    out.push(v);
                }
            }
            Operand::Value(cell, text) => {
                let from_cell = cell.and_then(|(r, c)| sheet.get_cell(r, c).parse::<f64>().ok());
                if let Some(v) = from_cell.or_else(|| text.parse::<f64>().ok()) {
                    out.push(v);
                }
            }
        }
    }
    Some(out)
}

fn shown(v: f64) -> String {
    format!("{}", v)
}

fn column(vals: &[&str]) -> Spreadsheet {
    let mut sheet = Spreadsheet::new();
    for (i, v) in vals.iter().enumerate() {
        sheet.set_cell(i, 0, v.to_string());
    }
    sheet
}

#[test]
fn test_evaluate_concatenate() {
    let mut sheet = Spreadsheet::new();
    let join = |sheet: &Spreadsheet, f: &str, kind| -> String {
        call(f, kind).iter().map(|a| text_arg(sheet, a)).collect::<Vec<_>>().concat()
    };
    assert_eq!(join(&sheet, "=CONCATENATE(\"Hello\",\" \",\"World\")", FunctionKind::Concatenate), "Hello World");
    assert_eq!(join(&sheet, "=CONCAT(\"A\",\"B\",\"C\")", FunctionKind::Concat), "ABC");
    assert_eq!(join(&sheet, "=concatenate(\"Hello\",\"World\")", FunctionKind::Concatenate), "HelloWorld");

    sheet.set_cell(0, 0, "Hello".to_string());
    sheet.set_cell(0, 1, "World".to_string());
    assert_eq!(join(&sheet, "=CONCATENATE(A1,\" \",B1)", FunctionKind::Concatenate), "Hello World");
}

#[test]
fn test_evaluate_left() {
    let mut sheet = Spreadsheet::new();
    assert_eq!(eval_left(&sheet, "=LEFT(\"Hello World\",5)"), "Hello");
    assert_eq!(eval_left(&sheet, "=LEFT(\"Hello\",10)"), "Hello");
    assert_eq!(eval_left(&sheet, "=left(\"Hello\",3)"), "Hel");

    sheet.set_cell(0, 0, "Hello World".to_string());
    assert_eq!(eval_left(&sheet, "=LEFT(A1,5)"), "Hello");
}

#[test]
fn test_evaluate_right() {
    let mut sheet = Spreadsheet::new();
    assert_eq!(eval_right(&sheet, "=RIGHT(\"Hello World\",5)"), "World");
    assert_eq!(eval_right(&sheet, "=RIGHT(\"Hello\",10)"), "Hello");
    assert_eq!(eval_right(&sheet, "=right(\"Hello\",3)"), "llo");

    sheet.set_cell(0, 0, "Hello World".to_string());
    assert_eq!(eval_right(&sheet, "=RIGHT(A1,5)"), "World");
}

#[test]
fn test_evaluate_mid() {
    let mut sheet = Spreadsheet::new();
    assert_eq!(eval_mid(&sheet, "=MID(\"Hello World\",7,5)"), "World");
    assert_eq!(eval_mid(&sheet, "=MID(\"Hello World\",1,5)"), "Hello");
    assert_eq!(eval_mid(&sheet, "=MID(\"Hello\",3,10)"), "llo");
    assert_eq!(eval_mid(&sheet, "=mid(\"Hello\",2,3)"), "ell");

    sheet.set_cell(0, 0, "Hello World".to_string());
    assert_eq!(eval_mid(&sheet, "=MID(A1,7,5)"), "World");
}

#[test]
fn mid_edges() {
    assert_eq!(mid_text("Hello", 0, 3), "");
    assert_eq!(mid_text("Hello", 6, 3), "");
    assert_eq!(mid_text("Hello", 5, usize::MAX), "o");
    assert_eq!(mid_text("\"héllo\"", 2, 2), "él");
    assert_eq!(right_text("日本語", 2), "本語");
    assert_eq!(left_text("", 4), "");
}

#[test]
fn test_evaluate_len() {
    let mut sheet = Spreadsheet::new();
    let len = |sheet: &Spreadsheet, f: &str| len_text(&eval_one(sheet, f, FunctionKind::Len)).to_string();
    assert_eq!(len(&sheet, "=LEN(\"Hello\")"), "5");
    assert_eq!(len(&sheet, "=LEN(\"\")"), "0");
    assert_eq!(len(&sheet, "=LEN(\"Hello World\")"), "11");
    assert_eq!(len(&sheet, "=len(\"Hello\")"), "5");

    sheet.set_cell(0, 0, "Hello World".to_string());
    assert_eq!(len(&sheet, "=LEN(A1)"), "11");
    assert_eq!(len_text("'日本'"), 2);
}

#[test]
fn test_evaluate_trim() {
    let mut sheet = Spreadsheet::new();
    let tr = |sheet: &Spreadsheet, f: &str| trim_text(&eval_one(sheet, f, FunctionKind::Trim));
    assert_eq!(tr(&sheet, "=TRIM(\"  hello  \")"), "hello");
    assert_eq!(tr(&sheet, "=TRIM(\"  hello  world  \")"), "hello world");
    assert_eq!(tr(&sheet, "=TRIM(\"hello\")"), "hello");
    assert_eq!(tr(&sheet, "=trim(\"  test  \")"), "test");

    sheet.set_cell(0, 0, "  spaced  text  ".to_string());
    assert_eq!(tr(&sheet, "=TRIM(A1)"), "spaced text");
}

#[test]
fn test_evaluate_upper() {
    let mut sheet = Spreadsheet::new();
    let up = |sheet: &Spreadsheet, f: &str| upper_text(&eval_one(sheet, f, FunctionKind::Upper));
    assert_eq!(up(&sheet, "=UPPER(\"hello\")"), "HELLO");
    assert_eq!(up(&sheet, "=UPPER(\"Hello World\")"), "HELLO WORLD");
    assert_eq!(up(&sheet, "=UPPER(\"HELLO\")"), "HELLO");
    assert_eq!(up(&sheet, "=upper(\"test\")"), "TEST");

    sheet.set_cell(0, 0, "lowercase text".to_string());
    assert_eq!(up(&sheet, "=UPPER(A1)"), "LOWERCASE TEXT");
}

#[test]
fn test_evaluate_lower() {
    let mut sheet = Spreadsheet::new();
    let low = |sheet: &Spreadsheet, f: &str| lower_text(&eval_one(sheet, f, FunctionKind::Lower));
    assert_eq!(low(&sheet, "=LOWER(\"HELLO\")"), "hello");
    assert_eq!(low(&sheet, "=LOWER(\"Hello World\")"), "hello world");
    assert_eq!(low(&sheet, "=LOWER(\"hello\")"), "hello");
    assert_eq!(low(&sheet, "=lower(\"TEST\")"), "test");

    sheet.set_cell(0, 0, "UPPERCASE TEXT".to_string());
    assert_eq!(low(&sheet, "=LOWER(A1)"), "uppercase text");
}

#[test]
fn test_evaluate_proper() {
    let mut sheet = Spreadsheet::new();
    let pr = |sheet: &Spreadsheet, f: &str| proper_text(&eval_one(sheet, f, FunctionKind::Proper));
    assert_eq!(pr(&sheet, "=PROPER(\"hello world\")"), "Hello World");
    assert_eq!(pr(&sheet, "=PROPER(\"HELLO WORLD\")"), "Hello World");
    assert_eq!(pr(&sheet, "=PROPER(\"hELLo WoRLd\")"), "Hello World");
    assert_eq!(pr(&sheet, "=PROPER(\"hello\")"), "Hello");
    assert_eq!(pr(&sheet, "=PROPER(\"a b c\")"), "A B C");
    assert_eq!(pr(&sheet, "=proper(\"test\")"), "Test");

    sheet.set_cell(0, 0, "john smith".to_string());
    assert_eq!(pr(&sheet, "=PROPER(A1)"), "John Smith");

    assert_eq!(pr(&sheet, "=PROPER(\"hello  world\")"), "Hello  World");
}

#[test]
fn dispatch_recognises_calls() {
    assert_eq!(classify_formula("=SUM(A1:A3)"), Some((FunctionKind::Sum, "A1:A3".to_string())));
    assert_eq!(classify_formula("=  sumif(B1:B3,\">15\")  "), Some((FunctionKind::Sumif, "B1:B3,\">15\"".to_string())));
    assert_eq!(classify_formula("=CountA(A1)"), Some((FunctionKind::Counta, "A1".to_string())));
    assert_eq!(classify_formula("=IFERROR(1/0,0)"), Some((FunctionKind::Iferror, "1/0,0".to_string())));
    assert_eq!(classify_formula("=SHELL(\"ls\")"), Some((FunctionKind::Shell, "\"ls\"".to_string())));
    assert_eq!(classify_formula("=IF()"), Some((FunctionKind::If, String::new())));
    assert_eq!(classify_formula("=SUM(A1"), None);
    assert_eq!(classify_formula("=SUMX(A1)"), None);
    assert_eq!(classify_formula("=1+2"), None);
    assert_eq!(formula_expression("= 1+2 "), "1+2");
    assert_eq!(formula_expression("A1"), "A1");
}

#[test]
fn splitting_arguments() {
    assert_eq!(split_function_args("A1>5,\"yes\",\"no\""), vec!["A1>5", "\"yes\"", "\"no\""]);
    assert_eq!(split_function_args("SUM(A1,A2),3"), vec!["SUM(A1,A2)", "3"]);
    assert_eq!(split_function_args(""), vec![""]);
    assert_eq!(split_function_args("\"a,b\""), vec!["\"a", "b\""]);
    assert_eq!(split_on("a,,b", ','), vec!["a", "", "b"]);
    assert_eq!(split_words(" a \t b\n"), vec!["a", "b"]);
    let sheet = Spreadsheet::new();
    assert_eq!(sheet.split_function_args("MAX(1,2), 3"), vec!["MAX(1,2)", " 3"]);
}

#[test]
fn swapped_corners_give_the_same_cells() {
    let mixed: Vec<String> = aggregate_operands("A1:B3").unwrap().iter().map(|o| format!("{:?}", o)).collect();
    let a: Vec<String> = aggregate_operands("A3:B1").unwrap().iter().map(|o| format!("{:?}", o)).collect();
    let b: Vec<String> = aggregate_operands("B1:A3").unwrap().iter().map(|o| format!("{:?}", o)).collect();
    assert_eq!(a, b);
    assert_eq!(a, mixed);
    assert_eq!(a.len(), 6);
    assert_eq!(collect_range_cells("B1:A3"), collect_range_cells("A1:B3"));
    assert!(aggregate_operands("$A$1:A3").is_none());
    assert_eq!(collect_range_cells(" A3 : A1 "), vec![(0, 0), (1, 0), (2, 0)]);
    assert_eq!(collect_range_cells("A1:A3"), collect_range_cells("A3:A1"));
    assert_eq!(collect_range_cells("B2"), vec![(1, 1)]);
    assert!(collect_range_cells("nothing").is_empty());
    assert!(aggregate_operands("A1:B").is_none());
}

#[test]
fn test_evaluate_sum() {
    let sheet = column(&["10", "20", "30"]);
    let sum = |args: &str| shown(values(&sheet, args).unwrap().iter().fold(0.0, |a, x| a + x));
    assert_eq!(sum("A1:A3"), "60");
    assert_eq!(sum("A3:A1"), "60");
}

#[test]
fn test_evaluate_avg() {
    let sheet = column(&["10", "20", "30"]);
    let avg = |args: &str| {
        let v = values(&sheet, args).unwrap();
        if v.is_empty() {
            "#ERROR".to_string()
        } else {
            shown(v.iter().sum::<f64>() / v.len() as f64)
        }
    };
    assert_eq!(avg("A1:A3"), "20");
    assert_eq!(avg("A3:A1"), "20");
    assert_eq!(avg("10,20,30"), "20");
    assert_eq!(avg("5,10"), "7.5");
    assert_eq!(avg("C1:C5"), "#ERROR");
}

#[test]
fn test_evaluate_if() {
    let mut sheet = Spreadsheet::new();
    let eval_if = |sheet: &Spreadsheet, f: &str| -> String {
        let a = call(f, FunctionKind::If);
        assert_eq!(a.len(), 3);
        let (l, op, r) = split_condition(&a[0]).unwrap();
        let num = |t: &str| match sheet.parse_cell_ref(t) {
            Some((row, col)) => sheet.get_cell(row, col).parse::<f64>().unwrap(),
            None => t.parse::<f64>().unwrap(),
        };
        let (x, y) = (num(&l), num(&r));
        let holds = match op {
            CompareOp::Gt => x > y,
            CompareOp::Lt => x < y,
            _ => unreachable!(),
        };
        text_arg(sheet, if holds { &a[1] } else { &a[2] })
    };
    sheet.set_cell(0, 0, "10".to_string());
    assert_eq!(eval_if(&sheet, "=IF(A1>5,\"yes\",\"no\")"), "yes");
    assert_eq!(eval_if(&sheet, "=IF(A1<5,\"yes\",\"no\")"), "no");
    assert_eq!(eval_if(&sheet, "=IF(A1>5,'yes','no')"), "yes");
    sheet.set_cell(0, 0, "3".to_string());
    assert_eq!(eval_if(&sheet, "=IF(A1>5,\"yes\",\"no\")"), "no");
    assert_eq!(eval_if(&sheet, "=IF(A1<5,'yes','no')"), "yes");
}

#[test]
fn conditions_split_at_the_first_operator_found() {
    assert_eq!(split_condition(" A1 >= 5 "), Some(("A1".to_string(), CompareOp::Ge, "5".to_string())));
    assert_eq!(split_condition("A1<>B1"), Some(("A1".to_string(), CompareOp::Ne, "B1".to_string())));
    assert_eq!(split_condition("1=2>0"), Some(("1=2".to_string(), CompareOp::Gt, "0".to_string())));
    assert_eq!(split_condition("5"), None);
}

#[test]
fn test_evaluate_median() {
    let median = |args: &str| {
        let mut v = values(&Spreadsheet::new(), args).unwrap();
        v.sort_by(|a, b| a.partial_cmp(b).unwrap());
        let n = v.len();
        let m = if n % 2 == 0 { (v[n / 2 - 1] + v[n / 2]) / 2.0 } else { v[n / 2] };
        shown(m)
    };
    assert_eq!(median("1,2,3,4"), "2.5");
    assert_eq!(median("5,1,3,2,4"), "3");
}

#[test]
fn test_evaluate_mod() {
    let a = call("=MOD(10,0)", FunctionKind::Mod);
    let divisor: f64 = trim(&a[1]).parse().unwrap();
    assert_eq!(divisor, 0.0);
    let a = call("=SQRT(-1)", FunctionKind::Sqrt);
    assert!(trim(&a[0]).parse::<f64>().unwrap() < 0.0);
    assert!(is_error_text("#DIV/0!"));
    assert!(is_error_text("#NUM!"));
}

#[test]
fn test_evaluate_vlookup() {
    let mut sheet = Spreadsheet::new();
    for (i, (k, v)) in [("1", "100"), ("2", "200"), ("3", "300")].iter().enumerate() {
        sheet.set_cell(i, 0, k.to_string());
        sheet.set_cell(i, 1, v.to_string());
    }
    let lookup = |sheet: &Spreadsheet, f: &str| -> String {
        let a = call(f, FunctionKind::Vlookup);
        let wanted = text_arg(sheet, &a[0]);
        let cells = collect_range_cells(&a[1]);
        let (target, result_col, rows) = match vlookup_layout(&cells, number(&a[2])) {
            Ok(l) => l,
            Err(LookupError::NoTable) => return "#N/A".to_string(),
            Err(LookupError::BadColumn) => return "#ERROR".to_string(),
        };
        let facts: Vec<KeyFacts> = rows
            .iter()
            .map(|&r| {
                let cell = sheet.get_cell(r, target);
                let (cn, ln) = (cell.parse::<f64>().ok(), wanted.parse::<f64>().ok());
                KeyFacts {
                    cell_number: cn.is_some(),
                    lookup_number: ln.is_some(),
                    not_above: matches!((cn, ln), (Some(c), Some(l)) if c <= l),
                    near: matches!((cn, ln), (Some(c), Some(l)) if (c - l).abs() < f64::EPSILON),
                    text_equal: cell == wanted,
                }
            })
            .collect();
        match vlookup_match(&facts, true) {
            Some(i) => sheet.get_cell(rows[i], result_col).to_string(),
            None => "#N/A".to_string(),
        }
    };
    assert_eq!(lookup(&sheet, "=VLOOKUP(2,A1:B3,2)"), "200");
    assert_eq!(lookup(&sheet, "=VLOOKUP(1,A1:B3,2)"), "100");
    assert_eq!(lookup(&sheet, "=VLOOKUP(3,A1:B3,2)"), "300");
    assert_eq!(lookup(&sheet, "=vlookup(2,A1:B3,2)"), "200");
    assert_eq!(lookup(&sheet, "=VLOOKUP(2,A1:B3,3)"), "#ERROR");
    assert_eq!(lookup(&sheet, "=VLOOKUP(0,A1:B3,2)"), "#N/A");

    sheet.set_cell(0, 0, "Apple".to_string());
    sheet.set_cell(0, 1, "Red".to_string());
    sheet.set_cell(1, 0, "Banana".to_string());
    sheet.set_cell(1, 1, "Yellow".to_string());
    assert_eq!(lookup(&sheet, "=VLOOKUP(\"Banana\",A1:B2,2)"), "Yellow");
}

#[test]
fn lookup_selection_rules() {
    let f = |cell_number, lookup_number, not_above, near, text_equal| KeyFacts {
        cell_number,
        lookup_number,
        not_above,
        near,
        text_equal,
    };
    let rising = vec![f(true, true, true, false, false), f(true, true, true, true, false), f(true, true, false, false, false), f(true, true, true, false, false)];
    assert_eq!(vlookup_match(&rising, true), Some(1));
    assert_eq!(vlookup_match(&rising, false), Some(1));
    let text = vec![f(false, false, false, false, false), f(false, false, false, false, true)];
    assert_eq!(vlookup_match(&text, true), Some(1));
    assert_eq!(vlookup_match(&vec![], true), None);
    assert_eq!(vlookup_layout(&vec![], 1).err(), Some(LookupError::NoTable));
    assert_eq!(vlookup_layout(&vec![(0, 0)], 0).err(), Some(LookupError::BadColumn));
}

#[test]
fn test_evaluate_iferror() {
    assert!(is_error_text("#DIV/0!"));
    assert!(is_error_text("#ERROR"));
    assert!(is_error_text("inf"));
    assert!(is_error_text("-inf"));
    assert!(is_error_text("NaN"));
    assert!(!is_error_text("8"));
    assert!(!is_error_text("5"));
    let a = call("=IFERROR(10/0,\"fallback\")", FunctionKind::Iferror);
    let tree = parse_arithmetic(&a[0]);
    let quotient = match tree {
        Arith::Apply(ArithOp::Div, l, r) => match (*l, *r) {
            (Arith::Operand(x), Arith::Operand(y)) => x.parse::<f64>().unwrap() / y.parse::<f64>().unwrap(),
            _ => unreachable!(),
        },
        _ => unreachable!(),
    };
    let shown_q = shown(quotient);
    assert_eq!(shown_q, "inf");
    let result = if is_error_text(&shown_q) { text_arg(&Spreadsheet::new(), &a[1]) } else { shown_q };
    assert_eq!(result, "fallback");

    let a = call("=IFERROR(5+3,\"fallback\")", FunctionKind::Iferror);
    let sum = match parse_arithmetic(&a[0]) {
        Arith::Apply(ArithOp::Add, l, r) => match (*l, *r) {
            (Arith::Operand(x), Arith::Operand(y)) => x.parse::<f64>().unwrap() + y.parse::<f64>().unwrap(),
            _ => unreachable!(),
        },
        _ => unreachable!(),
    };
    let shown_sum = shown(sum);
    assert!(!is_error_text(&shown_sum));
    assert_eq!(shown_sum, "8");
}

#[test]
fn test_evaluate_power() {
    let a = call("=POWER(0,-1)", FunctionKind::Power);
    assert_eq!(a, vec!["0", "-1"]);
    let r = trim(&a[0]).parse::<f64>().unwrap().powf(trim(&a[1]).parse::<f64>().unwrap());
    assert!(r.is_infinite());
    assert!(is_error_text(&shown(r)));
}

#[test]
fn arithmetic_shape() {
    let show = |a: &Arith| -> String {
        fn go(a: &Arith) -> String {
            match a {
                Arith::Operand(s) => s.clone(),
                Arith::Apply(op, l, r) => {
                    let o = match op {
                        ArithOp::Add => "+",
                        ArithOp::Sub => "-",
                        ArithOp::Mul => "*",
                        ArithOp::Div => "/",
                    };
                    format!("({} {} {})", go(l), o, go(r))
                }
            }
        }
        go(a)
    };
    assert_eq!(show(&parse_arithmetic("1+2*3")), "(1 + (2 * 3))");
    assert_eq!(show(&parse_arithmetic("10-3-2")), "((10 - 3) - 2)");
    assert_eq!(show(&parse_arithmetic(" -3 ")), "-3");
    assert_eq!(show(&parse_arithmetic("2*-3")), "((2 * ) - 3)");
    assert_eq!(show(&parse_arithmetic("8/4/2")), "((8 / 4) / 2)");
    assert_eq!(show(&parse_arithmetic("A1 + B2")), "(A1 + B2)");
}

#[test]
fn test_evaluate_countif() {
    let sheet = column(&["10", "20", "30", "10"]);
    let countif = |crit: &str| -> usize {
        let body = criteria_body(crit);
        let comps = criteria_comparisons(&body);
        collect_range_cells("A1:A4")
            .iter()
            .filter(|&&(r, c)| {
                let cell = sheet.get_cell(r, c);
                if let Ok(x) = cell.parse::<f64>() {
                    for (op, rhs) in &comps {
                        if let Ok(y) = rhs.parse::<f64>() {
                            return match op {
                                CompareOp::Gt => x > y,
                                CompareOp::Lt => x < y,
                                CompareOp::Ge => x >= y,
                                CompareOp::Le => x <= y,
                                CompareOp::Eq => (x - y).abs() < f64::EPSILON,
                                CompareOp::Ne => (x - y).abs() > f64::EPSILON,
                            };
                        }
                    }
                }
                criteria_text_matches(cell, &body)
            })
            .count()
    };
    assert_eq!(countif("\"10\""), 2);
    assert_eq!(countif("\">20\""), 1);
    assert_eq!(countif("\"<20\""), 2);
}

#[test]
fn criteria_reading() {
    assert_eq!(criteria_body("  \">=5\" "), ">=5");
    assert_eq!(
        criteria_comparisons(">=5"),
        vec![(CompareOp::Ge, "5".to_string()), (CompareOp::Gt, "=5".to_string()), (CompareOp::Eq, "5".to_string())]
    );
    assert!(criteria_comparisons("apple").is_empty());
    assert!(criteria_text_matches("pineapple", "*apple"));
    assert!(criteria_text_matches("apple", "a?ple") == false);
    assert!(criteria_text_matches("xappley", "ap?ple"));
    assert!(criteria_text_matches("apple", "apple"));
    assert!(!criteria_text_matches("Apple", "apple"));
}

#[test]
fn test_evaluate_sumif() {
    assert_eq!(sumif_pairs("B1:B2", None), Some(vec![((0, 1), Some((0, 1))), ((1, 1), Some((1, 1)))]));
    assert_eq!(sumif_pairs("A1:A2", Some("B2:B1")), Some(vec![((0, 0), Some((0, 1))), ((1, 0), Some((1, 1)))]));
    assert_eq!(sumif_pairs("A1:A2", Some("B1:B3")), None);
    assert_eq!(sumif_pairs("A1:A2", Some("text")), None);
    assert_eq!(sumif_pairs("C3", Some("D4")), Some(vec![((2, 2), Some((3, 3)))]));
    assert_eq!(sumif_pairs("C3", Some("text")), Some(vec![((2, 2), None)]));
    assert_eq!(sumif_pairs("nothing", None), None);
}

#[test]
fn logical_words() {
    assert_eq!(bool_word("true"), Some(true));
    assert_eq!(bool_word("FaLsE"), Some(false));
    assert_eq!(bool_word("yes"), None);
    assert_eq!(bool_word_folded("TRUE"), Some(true));
    assert_eq!(bool_word_folded("true"), None);
    assert!(truthy_folded("1"));
    assert!(!truthy_folded("true"));
    assert!(truthy_text("True"));
    assert!(truthy_text("1"));
    assert!(!truthy_text("0"));
}

/// Applies `fold` to the numeric operands of an aggregate call.
fn aggregate(sheet: &Spreadsheet, formula: &str, kind: FunctionKind, fold: fn(&[f64]) -> f64) -> String {
    let (k, inner) = classify_formula(formula).unwrap();
    assert_eq!(k, kind);
    shown(fold(&values(sheet, &inner).unwrap()))
}

fn min_of(v: &[f64]) -> f64 {
    v.iter().cloned().reduce(f64::min).unwrap()
}

fn max_of(v: &[f64]) -> f64 {
    v.iter().cloned().reduce(f64::max).unwrap()
}

fn literal_value(a: &Arith) -> f64 {
    match a {
        Arith::Operand(t) => t.parse().unwrap(),
        Arith::Apply(op, l, r) => {
            let (x, y) = (literal_value(l), literal_value(r));
            match op {
                ArithOp::Add => x + y,
                ArithOp::Sub => x - y,
                ArithOp::Mul => x * y,
                ArithOp::Div => x / y,
            }
        }
    }
}

#[test]
fn test_arithmetic() {
    let eval = |f: &str| {
        assert!(classify_formula(f).is_none());
        shown(literal_value(&parse_arithmetic(&formula_expression(f))))
    };
    assert_eq!(eval("=1+2"), "3");
    assert_eq!(eval("=10-3"), "7");
    assert_eq!(eval("=4*5"), "20");
    assert_eq!(eval("=20/4"), "5");
}

#[test]
fn test_evaluate_min() {
    let sheet = column(&["10", "5", "30"]);
    assert_eq!(aggregate(&sheet, "=MIN(A1:A3)", FunctionKind::Min, min_of), "5");
    assert_eq!(aggregate(&sheet, "=MIN(A3:A1)", FunctionKind::Min, min_of), "5");
    assert_eq!(aggregate(&sheet, "=MIN(10,5,30)", FunctionKind::Min, min_of), "5");
    assert_eq!(aggregate(&sheet, "=min(A1:A3)", FunctionKind::Min, min_of), "5");
}

#[test]
fn test_evaluate_min_simple() {
    let sheet = column(&["1", "2", "3"]);
    assert_eq!(aggregate(&sheet, "=MIN(A1:A3)", FunctionKind::Min, min_of), "1");
    assert_eq!(aggregate(&sheet, "=MAX(A1:A3)", FunctionKind::Max, max_of), "3");
}

#[test]
fn test_min_with_spaces() {
    let sheet = column(&["1", "2", "3"]);
    assert_eq!(aggregate(&sheet, "=MIN(A1:A3)", FunctionKind::Min, min_of), "1");
    assert_eq!(aggregate(&sheet, "=MIN( A1:A3)", FunctionKind::Min, min_of), "1");
    assert_eq!(aggregate(&sheet, "=MIN(A1:A3 )", FunctionKind::Min, min_of), "1");
    assert_eq!(aggregate(&sheet, "=MIN( A1:A3 )", FunctionKind::Min, min_of), "1");
}

#[test]
fn test_evaluate_max() {
    let sheet = column(&["10", "5", "30"]);
    assert_eq!(aggregate(&sheet, "=MAX(A1:A3)", FunctionKind::Max, max_of), "30");
    assert_eq!(aggregate(&sheet, "=MAX(A3:A1)", FunctionKind::Max, max_of), "30");
    assert_eq!(aggregate(&sheet, "=MAX(10,5,30)", FunctionKind::Max, max_of), "30");
    assert_eq!(aggregate(&sheet, "=max(A1:A3)", FunctionKind::Max, max_of), "30");
}

#[test]
fn test_evaluate_count() {
    let sheet = column(&["10", "20", "text", "30"]);
    let count = |v: &[f64]| v.len() as f64;
    assert_eq!(aggregate(&sheet, "=COUNT(A1:A4)", FunctionKind::Count, count), "3");
    assert_eq!(aggregate(&sheet, "=COUNT(10,20,30)", FunctionKind::Count, count), "3");
    assert_eq!(aggregate(&sheet, "=count(A1:A4)", FunctionKind::Count, count), "3");
}

#[test]
fn test_evaluate_product() {
    let mut sheet = Spreadsheet::new();
    let product = |v: &[f64]| v.iter().product::<f64>();
    assert_eq!(aggregate(&sheet, "=PRODUCT(2,3,4)", FunctionKind::Product, product), "24");
    assert_eq!(aggregate(&sheet, "=PRODUCT(5,2)", FunctionKind::Product, product), "10");
    assert_eq!(aggregate(&sheet, "=PRODUCT(10)", FunctionKind::Product, product), "10");
    assert_eq!(aggregate(&sheet, "=PRODUCT(2.5,4)", FunctionKind::Product, product), "10");
    assert_eq!(aggregate(&sheet, "=PRODUCT(-2,3)", FunctionKind::Product, product), "-6");
    assert_eq!(aggregate(&sheet, "=product(2,3)", FunctionKind::Product, product), "6");

    sheet.set_cell(0, 0, "2".to_string());
    sheet.set_cell(0, 1, "3".to_string());
    sheet.set_cell(0, 2, "4".to_string());
    assert_eq!(aggregate(&sheet, "=PRODUCT(A1:C1)", FunctionKind::Product, product), "24");
    assert_eq!(aggregate(&sheet, "=PRODUCT(A1,B1,C1)", FunctionKind::Product, product), "24");

    sheet.set_cell(0, 0, "1".to_string());
    sheet.set_cell(1, 0, "2".to_string());
    sheet.set_cell(2, 0, "3".to_string());
    assert_eq!(aggregate(&sheet, "=PRODUCT(A1:A3)", FunctionKind::Product, product), "6");
    assert_eq!(aggregate(&sheet, "=PRODUCT(5,0,10)", FunctionKind::Product, product), "0");
}
