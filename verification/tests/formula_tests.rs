use stockgo::formula::{formula_input, formula_output, formula_script};

fn col(items: &[&str]) -> Vec<String> {
    items.iter().map(|s| s.to_string()).collect()
}

#[test]
fn formula_input_reads_cells_as_integers() {
    let c = col(&["1", "-2", "x", " 3", "+4", "9223372036854775808", "-9223372036854775808", ""]);
    assert_eq!(formula_input(&c), "[1,-2,0,0,4,0,-9223372036854775808,0]");
    assert_eq!(formula_input(&Vec::new()), "[]");
}

#[test]
fn formula_script_maps_the_formula() {
    assert_eq!(
        formula_script("num * 2"),
        "const x = JSON.parse(process.argv[1]); const y = x.map(num => num * 2); console.log(JSON.stringify(y))"
    );
}

#[test]
fn formula_output_reads_the_printed_array() {
    assert_eq!(formula_output(b"[2,\"a\",null,1.5,true]\n"), Some(col(&["2", "a", "null", "1.5", "true"])));
    assert_eq!(formula_output(b"[]"), Some(Vec::new()));
    assert_eq!(formula_output(b"{\"a\":1}"), None);
    assert_eq!(formula_output(b"oops"), None);
}
