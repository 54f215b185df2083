use config_patch::error::ConfigPatchError;
use config_patch::format::{detect, format_from_extension, output_format, Format};
use config_patch::run::{check_input_count, InputCountError};

fn unsupported_message(r: Result<Format, ConfigPatchError>) -> String {
    match r {
        Err(ConfigPatchError::UnsupportedFormat(m)) => m,
        other => panic!("expected an unsupported-format error, got {:?}", other),
    }
}

#[test]
fn test_detect_json() {
    assert_eq!(detect("config.json").unwrap(), Format::Json);
}

#[test]
fn test_detect_yaml() {
    assert_eq!(detect("config.yaml").unwrap(), Format::Yaml);
    assert_eq!(detect("config.yml").unwrap(), Format::Yaml);
}

#[test]
fn test_detect_toml() {
    assert_eq!(detect("config.toml").unwrap(), Format::Toml);
}

#[test]
fn test_detect_unsupported() {
    assert!(detect("config.xml").is_err());
}

#[test]
fn detect_ignores_case() {
    assert_eq!(detect("CONFIG.JSON").unwrap(), Format::Json);
    assert_eq!(detect("a/b/Settings.YmL").unwrap(), Format::Yaml);
    assert_eq!(detect("/etc/app/config.Toml").unwrap(), Format::Toml);
}

#[test]
fn detect_uses_the_final_component() {
    assert_eq!(detect("dir.yaml/config.json").unwrap(), Format::Json);
    assert_eq!(detect("config.toml/").unwrap(), Format::Toml);
    assert_eq!(detect("config.toml/.").unwrap(), Format::Toml);
    assert_eq!(detect("archive.tar.json").unwrap(), Format::Json);
}

#[test]
fn detect_without_extension_names_the_path() {
    assert_eq!(
        unsupported_message(detect("Makefile")),
        "No file extension found: Makefile"
    );
    assert_eq!(
        unsupported_message(detect(".json")),
        "No file extension found: .json"
    );
    assert_eq!(
        unsupported_message(detect("conf.json/..")),
        "No file extension found: conf.json/.."
    );
    assert_eq!(unsupported_message(detect("")), "No file extension found: ");
    assert_eq!(unsupported_message(detect("/")), "No file extension found: /");
}

#[test]
fn detect_unsupported_extension_names_it_in_lower_case() {
    assert_eq!(
        unsupported_message(detect("config.XML")),
        "Unsupported file extension: .xml"
    );
    assert_eq!(
        unsupported_message(detect("notes.")),
        "Unsupported file extension: ."
    );
}

#[test]
fn format_from_extension_is_exact() {
    assert_eq!(format_from_extension("json").unwrap(), Format::Json);
    assert_eq!(format_from_extension("yaml").unwrap(), Format::Yaml);
    assert_eq!(format_from_extension("yml").unwrap(), Format::Yaml);
    assert_eq!(format_from_extension("toml").unwrap(), Format::Toml);
    assert_eq!(
        unsupported_message(format_from_extension("JSON")),
        "Unsupported file extension: .JSON"
    );
    assert_eq!(
        unsupported_message(format_from_extension("jsonx")),
        "Unsupported file extension: .jsonx"
    );
}

#[test]
fn output_format_prefers_the_forced_format() {
    assert_eq!(output_format(Some(Format::Toml), "out.txt").unwrap(), Format::Toml);
    assert_eq!(output_format(None, "out.yaml").unwrap(), Format::Yaml);
    assert!(output_format(None, "out.txt").is_err());
}

#[test]
fn error_messages() {
    assert_eq!(
        ConfigPatchError::FileNotFound("a.json".to_string()).to_string(),
        "File not found: a.json"
    );
    assert_eq!(
        ConfigPatchError::ParseError {
            path: "a.json".to_string(),
            message: "bad".to_string()
        }
        .to_string(),
        "Failed to parse a.json: bad"
    );
    assert_eq!(
        ConfigPatchError::UnsupportedFormat("x".to_string()).to_string(),
        "Unsupported file format: x"
    );
    assert_eq!(
        ConfigPatchError::WriteError("disk full".to_string()).to_string(),
        "Failed to write output: disk full"
    );
}

#[test]
fn input_count_needs_two_files() {
    assert_eq!(check_input_count(0), Err(InputCountError::NoInputs));
    assert_eq!(check_input_count(1), Err(InputCountError::SingleInput));
    assert_eq!(check_input_count(2), Ok(()));
    assert_eq!(check_input_count(5), Ok(()));
    assert_eq!(
        InputCountError::NoInputs.message(),
        "At least one input file is required"
    );
    assert_eq!(
        InputCountError::SingleInput.message(),
        "At least two input files are required for merging"
    );
}
