use dynanalysis::ddmin::{ddmin, ByteCountOracle, Data, Oracle, TestResult};

fn make_oracle(fail_inducing_input: Data) -> ByteCountOracle {
    ByteCountOracle::new(fail_inducing_input)
}

fn byte_to_str(data: &Data) -> String {
    String::from_utf8(data.to_vec()).unwrap()
}

fn run_case(input: String, fail_inducing_input: String, expected: Data) {
    let oracle = make_oracle(fail_inducing_input.into_bytes());
    let minimized = ddmin(&input.into_bytes(), &oracle);
    println!(
        " {:?} == {:?}",
        byte_to_str(&minimized),
        byte_to_str(&expected)
    );
    assert_eq!(minimized, expected);
}

#[test]
fn test_ddmin() {
    let tcs = [
        (
            String::from("12345678"),
            String::from("178"),
            String::from("178"),
        ),
        (
            String::from("12345678"),
            String::from("1<78"),
            String::from("12345678"),
        ),
        (
            String::from("int a = 1; int b = 2; assert(a == b);"),
            String::from("assert(a == b);"),
            String::from("assert(a == b);"),
        ),
        (
            String::from("This is a test string with a problematic $ character inside."),
            String::from("$"),
            String::from("$"),
        ),
        (
            String::from("function calculate_sum(a, b) { return a + b; print(\"calc\" }"),
            String::from("print(\"calc"),
            String::from("print(\"calc"),
        ),
        (
            String::from(
                "{'data': [1, 2, 3, 'value', {'key': 'nested'}, 'extra', {'bug': 'missing_brace']}",
            ),
            String::from("missing_brace'"),
            String::from("'missing_brace"),
        ),
    ];
    for tc in tcs {
        let (input, fail_inducing_input, expected) = (tc.0, tc.1, tc.2);
        run_case(input, fail_inducing_input, expected.into_bytes());
    }
}

#[test]
fn test_ddmin_result_fails_oracle() {
    let oracle = make_oracle(b"178".to_vec());
    let minimized = ddmin(&b"12345678".to_vec(), &oracle);
    assert_eq!(oracle.test(&minimized), TestResult::Fail);
    // the result's bytes all come from the input
    let mut input = b"12345678".to_vec();
    for b in &minimized {
        let pos = input.iter().position(|x| x == b).unwrap();
        input.remove(pos);
    }
}

#[test]
fn test_oracle_passes_empty() {
    let oracle = make_oracle(b"x".to_vec());
    assert_eq!(oracle.test(&Vec::new()), TestResult::Pass);
}
