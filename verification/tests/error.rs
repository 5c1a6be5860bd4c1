use audiowaveform::Error;

#[test]
fn errors_render_their_messages() {
    let cases = [
        (Error::InvalidArgument { name: "zoom", message: "Invalid zoom: minimum 2".to_string() }, "Invalid zoom: minimum 2"),
        (Error::InvalidData { message: "bad data".to_string() }, "bad data"),
        (Error::UnsupportedFormat { format: "aac".to_string() }, "Unsupported format: aac"),
        (Error::MissingValue { name: "length" }, "Missing value: length"),
        (Error::MissingMetadata { name: "channels" }, "Missing metadata: channels"),
        (Error::Io { message: "failed to fill whole buffer".to_string() }, "failed to fill whole buffer"),
        (Error::Codec { message: "end of stream".to_string() }, "end of stream"),
    ];
    for (error, expected) in cases {
        assert_eq!(error.to_string(), expected);
    }
}

#[test]
fn error_constructors_keep_their_text() {
    assert_eq!(Error::invalid_argument("width", "Invalid image width: minimum 1").to_string(), "Invalid image width: minimum 1");
    assert_eq!(Error::invalid_data("Empty").to_string(), "Empty");
    assert_eq!(Error::unsupported_format("opus").to_string(), "Unsupported format: opus");
    match Error::invalid_argument_owned("colors", "Unknown color scheme: x".to_string()) {
        Error::InvalidArgument { name, message } => {
            assert_eq!(name, "colors");
            assert_eq!(message, "Unknown color scheme: x");
        }
        other => panic!("unexpected error {other:?}"),
    }
}
