use minigrep::Config;

#[test]
#[should_panic(expected = "Did not get a query string")]
fn query_is_not_provided() {
    // arrange
    let args = vec![String::from("first")];

    // act & assert
    Config::new(args, true).unwrap();
}

#[test]
#[should_panic(expected = "Did not get a filename string")]
fn filename_is_not_provided() {
    // arrange
    let args = vec![String::from("first"), String::from("second")];

    // act & assert
    Config::new(args, true).unwrap();
}

#[test]
fn can_create() {
    // arrange
    let args = vec![String::default(), String::default(), String::default()];

    // act
    let result = Config::new(args, true);

    // assert
    assert!(result.is_ok());
}

#[test]
fn created_config_has_correct_properties() {
    // arrange
    let query = String::from("someQuery");
    let filename = String::from("someFile.txt");
    let args = vec![String::from("ignore"), query.clone(), filename.clone()];

    // act
    let result = Config::new(args, true).unwrap();

    // assert
    assert_eq!(query, result.query);
    assert_eq!(filename, result.filename);
}

#[test]
fn missing_query_error_with_no_arguments() {
    match Config::new(Vec::new(), false) {
        Err(message) => assert_eq!(message, "Did not get a query string"),
        Ok(_) => panic!("expected an error"),
    }
}

#[test]
fn case_sensitivity_is_taken_as_given() {
    let args = vec![String::from("prog"), String::from("q"), String::from("f")];
    let sensitive = Config::new(args.clone(), true).unwrap();
    let insensitive = Config::new(args, false).unwrap();
    assert!(sensitive.case_sensitive);
    assert!(!insensitive.case_sensitive);
}
