use mmml_compiler::args::{CompilerArgs, ExportType};

fn args(input: &str, output: Option<&str>, export_type: ExportType, name: Option<&str>) -> CompilerArgs {
    CompilerArgs {
        input_path: input.to_string(),
        output_path: output.map(|s| s.to_string()),
        export_type,
        music_name: name.map(|s| s.to_string()),
        verbose: false,
    }
}

#[test]
fn output_path_defaults_to_input_with_extension() {
    assert_eq!(args("song.mml", None, ExportType::Code, None).get_output_path(), "song.c");
    assert_eq!(args("song.mml", None, ExportType::Raw, None).get_output_path(), "song.mbf");
    assert_eq!(args("song", None, ExportType::Code, None).get_output_path(), "song.c");
    assert_eq!(args("song.mml", Some("out.bin"), ExportType::Raw, None).get_output_path(), "out.bin");
}

#[test]
fn music_name_from_output_path() {
    assert_eq!(args("song2.mml", None, ExportType::Code, None).get_music_name(), "SONG");
    assert_eq!(args("a.mml", Some("my_tune1.x.c"), ExportType::Code, None).get_music_name(), "MY_TUNE");
    assert_eq!(args("a.mml", None, ExportType::Code, Some("Theme")).get_music_name(), "Theme");
}

#[test]
fn export_type_default_is_code() {
    assert_eq!(ExportType::default(), ExportType::Code);
}
