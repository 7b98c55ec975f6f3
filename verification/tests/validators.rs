use mixxxkit::validators::Database;
use mixxxkit::validators::Directory;
use mixxxkit::validators::Target;
use mixxxkit::validators::Verdict;

fn message(v: Verdict) -> Option<String> {
    match v {
        Verdict::Valid => None,
        Verdict::Invalid(m) => Some(m),
    }
}

#[test]
fn optional_passes_empty_string() {
    let v = Database::Optional.decide(&String::new(), false, false);
    assert!(v.is_valid());
}

#[test]
fn required_fails_empty_string() {
    let v = Database::Required.decide(&String::new(), false, false);
    assert_eq!(message(v).as_deref(), Some("Path is required!"));
}

#[test]
fn fails_missing_path() {
    let v = Database::Required.decide(&".nonexistent".to_owned(), false, false);
    assert_eq!(message(v).as_deref(), Some("Could not find database at path!"));
}

#[test]
fn fails_invalid_file() {
    let v = Database::Required.decide(&".gitignore".to_owned(), true, false);
    assert_eq!(message(v).as_deref(), Some("File is not a valid database!"));
}

#[test]
fn database_passes_healthy_file() {
    let v = Database::Required.decide(&"db.sqlite".to_owned(), true, true);
    assert!(v.is_valid());
    assert!(!Database::Required.is_optional());
    assert!(Database::Optional.is_optional());
}

#[test]
fn fails_missing() {
    let v = Directory::Required.decide(&".nonexistent".to_owned(), false);
    assert_eq!(message(v).as_deref(), Some("Directory does not exist!"));
}

#[test]
fn fails_file() {
    let v = Directory::Required.decide(&".gitignore".to_owned(), false);
    assert_eq!(message(v).as_deref(), Some("Directory does not exist!"));
}

#[test]
fn passes_directory() {
    let v = Directory::Required.decide(&"src".to_owned(), true);
    assert!(v.is_valid());
    assert!(!Directory::Required.is_optional());
}

#[test]
fn passes_optional() {
    let v = Directory::Optional.decide(&String::new(), false);
    assert!(v.is_valid());
    assert!(Directory::Optional.is_optional());
}

#[test]
fn passes_value() {
    let v = Target::OptionalDirExists.decide(&".nonexistent.txt".to_owned(), true, false);
    assert!(v.is_valid());
}

#[test]
fn passes_empty() {
    let v = Target::OptionalDirExists.decide(&String::new(), false, false);
    assert!(v.is_valid());
}

#[test]
fn fails_missing_directory() {
    let v = Target::OptionalDirExists.decide(&".nonexistent/file.txt".to_owned(), false, false);
    assert_eq!(message(v).as_deref(), Some("Parent directory does not exist!"));
}

#[test]
fn fails_existing_file() {
    let v = Target::OptionalDirExists.decide(&".gitignore".to_owned(), true, true);
    assert_eq!(message(v).as_deref(), Some("File already exists at path!"));
}
