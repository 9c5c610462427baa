use psi_tests::naming;
use psi_tests::naming::u128_to_string;

#[test]
fn check_file_availability() {
    assert_eq!("./test.txt", naming::check_file_availability("./test.txt", &vec![]));

    assert_eq!(
        "./test (1).txt",
        naming::check_file_availability("./test.txt", &vec!["./test.txt".to_string()])
    );

    assert_eq!(
        "./test (2).txt",
        naming::check_file_availability(
            "./test.txt",
            &vec!["./test.txt".to_string(), "./test (1).txt".to_string()]
        )
    );
}

#[test]
fn output_naming_skips_every_taken_index() {
    // Requesting out.csv while out.csv and its first alternative are taken
    // yields the second alternative.
    let taken = vec!["out.csv".to_string(), "./out (1).csv".to_string()];
    assert_eq!("./out (2).csv", naming::check_file_availability("out.csv", &taken));
}

#[test]
fn free_names_are_kept_as_given() {
    assert_eq!(
        "reports/summary.csv",
        naming::check_file_availability("reports/summary.csv", &vec!["other.csv".to_string()])
    );
    // A free name needs no stem/extension split to be returned unchanged.
    assert_eq!(
        "no_extension",
        naming::check_file_availability("no_extension", &vec!["other.csv".to_string()])
    );
}

#[test]
fn decimal_rendering() {
    assert_eq!(u128_to_string(0), "0");
    assert_eq!(u128_to_string(7), "7");
    assert_eq!(u128_to_string(10), "10");
    assert_eq!(u128_to_string(12345), "12345");
    assert_eq!(u128_to_string(1000), "1000");
}
