//! Behaviour of the upload resolver, the configuration helpers, and the
//! output assembly.

use custom_uploader::config::default_file_form_name;
use custom_uploader::config::default_request_method;
use custom_uploader::config::default_response_type;
use custom_uploader::config::Body;
use custom_uploader::config::Config;
use custom_uploader::config::DestinationType;
use custom_uploader::config::RequestMethod;
use custom_uploader::syntax::process;
use custom_uploader::uploader::build_output;
use custom_uploader::uploader::evaluate_map_values;
use custom_uploader::uploader::CustomUploader;
use custom_uploader::uploader::Error;
use custom_uploader::uploader::UploadResolver;

fn message(e: Error) -> String {
    e.message().clone()
}

fn sample_config() -> Config {
    Config {
        version: None,
        name: None,
        regex_list: None,
        body: Some(Body::MultipartFormData),
        arguments: None,
        headers: None,
        parameters: None,
        data: None,
        error_message: None,
        destination_type: None,
        file_form_name: default_file_form_name(),
        response_type: default_response_type(),
        url: None,
        thumbnail_url: None,
        deletion_url: None,
        request_method: default_request_method(),
        request_url: "https://example.test/upload".to_string(),
    }
}

#[test]
fn base64_encodes_its_single_argument() {
    let r = UploadResolver::pre_request();
    let out = process("{base64:user:pw}", &r, &()).unwrap();
    assert_eq!(out, "dXNlcjpwdw==");
}

#[test]
fn base64_without_argument_is_an_arity_error() {
    let r = UploadResolver::pre_request();
    let e = process("{base64}", &r, &()).unwrap_err();
    assert_eq!(message(e), "base64 needs exactly 1 argument");
}

#[test]
fn random_picks_one_of_its_arguments() {
    let r = UploadResolver::pre_request();
    for _ in 0..16 {
        let out = process("{random:a|b|c}", &r, &()).unwrap();
        // a side-effecting function: repeated evaluations may differ, so
        // nothing is asserted equal across calls -- only membership
        assert!(out == "a" || out == "b" || out == "c");
    }
}

#[test]
fn random_without_arguments_is_an_arity_error() {
    let r = UploadResolver::pre_request();
    let e = process("{random}", &r, &()).unwrap_err();
    assert_eq!(message(e), "{random} needs at least 1 argument");
}

#[test]
fn response_is_rejected_before_the_request() {
    let r = UploadResolver::pre_request();
    let e = process("{response}", &r, &()).unwrap_err();
    assert_eq!(message(e), "{response} is not available in current context");
}

#[test]
fn header_is_rejected_before_the_request() {
    let r = UploadResolver::pre_request();
    let e = process("{header:Content-Type}", &r, &()).unwrap_err();
    assert_eq!(message(e), "{header} is not available in current context");
}

#[test]
fn response_yields_the_body_after_the_request() {
    let r = UploadResolver::post_request("BODY".to_string(), Vec::new());
    assert_eq!(process("{response}", &r, &()).unwrap(), "BODY");
}

#[test]
fn header_yields_the_named_header_value() {
    let headers = vec![
        ("Content-Type".to_string(), "text/html".to_string()),
        ("Location".to_string(), "https://example.test/x".to_string()),
    ];
    let r = UploadResolver::post_request("BODY".to_string(), headers);
    assert_eq!(process("{header:Location}", &r, &()).unwrap(), "https://example.test/x");
}

#[test]
fn absent_header_yields_the_empty_string() {
    let r = UploadResolver::post_request("BODY".to_string(), Vec::new());
    assert_eq!(process("pre{header:Missing}post", &r, &()).unwrap(), "prepost");
}

#[test]
fn interactive_functions_are_unsupported() {
    let r = UploadResolver::pre_request();
    let e = process("{select:a|b}", &r, &()).unwrap_err();
    assert_eq!(message(e), "unsupported function {select}");
    let e = process("{prompt}", &r, &()).unwrap_err();
    assert_eq!(message(e), "unsupported function {prompt}");
}

#[test]
fn unknown_functions_are_named_in_the_error() {
    let r = UploadResolver::pre_request();
    let e = process("{nope}", &r, &()).unwrap_err();
    assert_eq!(message(e), "invalid function {nope}");
}

#[test]
fn nested_base64_of_a_header() {
    let headers = vec![("Token".to_string(), "t0k".to_string())];
    let r = UploadResolver::post_request("BODY".to_string(), headers);
    let out = process("{base64:{header:Token}}", &r, &()).unwrap();
    assert_eq!(out, "dDBr");
}

#[test]
fn evaluate_map_values_keeps_keys_and_order() {
    let r = UploadResolver::pre_request();
    let entries = vec![
        ("auth".to_string(), "Basic {base64:user:pw}".to_string()),
        ("plain".to_string(), "as-is".to_string()),
    ];
    let out = evaluate_map_values(&entries, &r, &()).unwrap();
    assert_eq!(
        out,
        vec![
            ("auth".to_string(), "Basic dXNlcjpwdw==".to_string()),
            ("plain".to_string(), "as-is".to_string()),
        ]
    );
}

#[test]
fn evaluate_map_values_propagates_the_first_error() {
    let r = UploadResolver::pre_request();
    let entries = vec![
        ("ok".to_string(), "fine".to_string()),
        ("bad".to_string(), "{response}".to_string()),
        ("later".to_string(), "{also_bad}".to_string()),
    ];
    let e = evaluate_map_values(&entries, &r, &()).unwrap_err();
    assert_eq!(message(e), "{response} is not available in current context");
}

#[test]
fn output_url_falls_back_to_the_response_text() {
    let config = sample_config();
    let out = build_output(&config, &"https://img.example/abc".to_string(), Vec::new()).unwrap();
    assert_eq!(out.response.as_deref(), Some("https://img.example/abc"));
    assert_eq!(out.url.as_deref(), Some("https://img.example/abc"));
    assert_eq!(out.deletion_url, None);
    assert_eq!(out.thumbnail_url, None);
    assert_eq!(out.error_message, None);
}

#[test]
fn output_fields_are_evaluated_against_the_response() {
    let mut config = sample_config();
    config.url = Some("{response}/view".to_string());
    config.deletion_url = Some("{header:Delete-Token}".to_string());
    config.error_message = Some("{header:Warning}".to_string());
    let headers = vec![("Delete-Token".to_string(), "D3L".to_string())];
    let out = build_output(&config, &"ID42".to_string(), headers).unwrap();
    assert_eq!(out.response.as_deref(), Some("ID42"));
    assert_eq!(out.url.as_deref(), Some("ID42/view"));
    assert_eq!(out.deletion_url.as_deref(), Some("D3L"));
    assert_eq!(out.thumbnail_url, None);
    assert_eq!(out.error_message.as_deref(), Some(""));
}

#[test]
fn output_error_propagates_from_a_template() {
    let mut config = sample_config();
    config.url = Some("{nope}".to_string());
    let e = build_output(&config, &"BODY".to_string(), Vec::new()).unwrap_err();
    assert_eq!(message(e), "invalid function {nope}");
}

#[test]
fn destination_type_parses_known_names() {
    assert_eq!(DestinationType::parse("ImageUploader"), Some(DestinationType::ImageUploader));
    assert_eq!(DestinationType::parse("TextUploader"), Some(DestinationType::TextUploader));
    assert_eq!(DestinationType::parse("FileUploader"), Some(DestinationType::FileUploader));
    assert_eq!(DestinationType::parse("URLShortener"), Some(DestinationType::URLShortener));
    assert_eq!(DestinationType::parse("URLSharingService"), Some(DestinationType::URLShortener));
    assert_eq!(DestinationType::parse("SomethingElse"), None);
}

#[test]
fn destination_list_is_split_and_trimmed() {
    assert_eq!(
        custom_uploader::config::parse_destination_types("ImageUploader, TextUploader ,FileUploader"),
        Some(vec![
            DestinationType::ImageUploader,
            DestinationType::TextUploader,
            DestinationType::FileUploader,
        ])
    );
}

#[test]
fn destination_list_accepts_the_alias() {
    assert_eq!(
        custom_uploader::config::parse_destination_types("URLSharingService"),
        Some(vec![DestinationType::URLShortener])
    );
}

#[test]
fn destination_list_rejects_unknown_names() {
    assert_eq!(custom_uploader::config::parse_destination_types("ImageUploader, Unknown"), None);
}

#[test]
fn defaults_match_the_configuration_format() {
    assert_eq!(default_request_method(), RequestMethod::POST);
    assert_eq!(default_file_form_name(), "file");
    assert_eq!(default_response_type(), "Text");
}

#[test]
fn uploader_keeps_its_configuration() {
    let uploader = CustomUploader::new(sample_config());
    assert_eq!(uploader.config.request_url, "https://example.test/upload");
    assert_eq!(uploader.config.file_form_name, "file");
}
