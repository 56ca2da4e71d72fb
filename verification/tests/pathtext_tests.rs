use rico::pathtext::{
    bytes_eq, choose_output_dir, classify_for_conversion, is_allowed_image_ext, is_svg_extension,
    join_path, output_file_name, parse_target_format, replace_extension, to_lower_bytes,
    TargetFormat, WalkAction,
};

#[test]
fn lowercasing_touches_only_ascii_uppercase() {
    assert_eq!(to_lower_bytes(b"AbC-12Z"), b"abc-12z".to_vec());
    assert_eq!(to_lower_bytes(b""), Vec::<u8>::new());
    assert_eq!(to_lower_bytes(&[b'A' - 1, b'Z' + 1]), vec![b'A' - 1, b'Z' + 1]);
}

#[test]
fn bytes_eq_compares_contents() {
    assert!(bytes_eq(b"abc", b"abc"));
    assert!(!bytes_eq(b"abc", b"abd"));
    assert!(!bytes_eq(b"abc", b"ab"));
    assert!(bytes_eq(b"", b""));
}

#[test]
fn allowed_extensions_ignore_ascii_case() {
    for ext in ["jpg", "jpeg", "png", "gif", "bmp", "webp", "tiff"] {
        assert!(is_allowed_image_ext(ext.as_bytes()), "{ext}");
        assert!(is_allowed_image_ext(ext.to_uppercase().as_bytes()), "{ext}");
    }
    assert!(is_allowed_image_ext(b"JpEg"));
}

#[test]
fn disallowed_extensions_are_rejected() {
    for ext in ["svg", "txt", "jpgx", "pn", "", "tif", "heic"] {
        assert!(!is_allowed_image_ext(ext.as_bytes()), "{ext}");
    }
}

#[test]
fn svg_extension_check_ignores_ascii_case() {
    assert!(is_svg_extension(b"svg"));
    assert!(is_svg_extension(b"SVG"));
    assert!(is_svg_extension(b"Svg"));
    assert!(!is_svg_extension(b"sv"));
    assert!(!is_svg_extension(b"svgz"));
}

#[test]
fn conversion_walk_skips_svg_files() {
    assert_eq!(classify_for_conversion(b"svg", b"png"), WalkAction::SkipSvg);
    assert_eq!(classify_for_conversion(b"SVG", b"png"), WalkAction::SkipSvg);
}

#[test]
fn conversion_walk_passes_over_files_already_in_the_target_format() {
    assert_eq!(classify_for_conversion(b"png", b"png"), WalkAction::AlreadyTarget);
    assert_eq!(classify_for_conversion(b"PNG", b"png"), WalkAction::AlreadyTarget);
}

#[test]
fn conversion_walk_queues_everything_else() {
    assert_eq!(classify_for_conversion(b"jpg", b"png"), WalkAction::Convert);
    assert_eq!(classify_for_conversion(b"png", b"jpg"), WalkAction::Convert);
    assert_eq!(classify_for_conversion(b"txt", b"png"), WalkAction::Convert);
}

#[test]
fn target_formats_parse_by_their_exact_spelling() {
    assert_eq!(parse_target_format(b"png"), Some(TargetFormat::Png));
    assert_eq!(parse_target_format(b"jpg"), Some(TargetFormat::Jpeg));
    assert_eq!(parse_target_format(b"jpeg"), Some(TargetFormat::Jpeg));
    assert_eq!(parse_target_format(b"bmp"), Some(TargetFormat::Bmp));
    assert_eq!(parse_target_format(b"webp"), Some(TargetFormat::WebP));
}

#[test]
fn unknown_target_formats_are_rejected() {
    assert_eq!(parse_target_format(b"PNG"), None);
    assert_eq!(parse_target_format(b"tiff"), None);
    assert_eq!(parse_target_format(b"gif"), None);
    assert_eq!(parse_target_format(b""), None);
}

#[test]
fn output_file_names_join_stem_dot_extension() {
    assert_eq!(output_file_name(b"photo", b"png"), b"photo.png".to_vec());
    assert_eq!(output_file_name(b"archive.tar", b"bmp"), b"archive.tar.bmp".to_vec());
}

#[test]
fn replace_extension_rewrites_the_final_component() {
    assert_eq!(replace_extension(b"dir/photo.jpg", b"png"), b"dir/photo.png".to_vec());
    assert_eq!(replace_extension(b"photo.jpeg", b"png"), b"photo.png".to_vec());
    assert_eq!(replace_extension(b"a/b.c/photo.gif", b"png"), b"a/b.c/photo.png".to_vec());
}

#[test]
fn replace_extension_appends_when_the_component_has_none() {
    assert_eq!(replace_extension(b"dir/photo", b"png"), b"dir/photo.png".to_vec());
    assert_eq!(replace_extension(b"a/b.c/photo", b"png"), b"a/b.c/photo.png".to_vec());
}

#[test]
fn replace_extension_keeps_a_leading_dot_name_whole() {
    assert_eq!(replace_extension(b".gitignore", b"png"), b".gitignore.png".to_vec());
    assert_eq!(replace_extension(b"dir/.hidden", b"png"), b"dir/.hidden.png".to_vec());
}

#[test]
fn replace_extension_takes_the_last_dot_only() {
    assert_eq!(replace_extension(b"photo.tar.gz", b"png"), b"photo.tar.png".to_vec());
}

#[test]
fn join_path_inserts_a_single_separator() {
    assert_eq!(join_path(b"out", b"a/b.png"), b"out/a/b.png".to_vec());
    assert_eq!(join_path(b"out/", b"x"), b"out/x".to_vec());
    assert_eq!(join_path(b"", b"x"), b"x".to_vec());
}

#[test]
fn output_dir_defaults_to_the_source_dir() {
    assert_eq!(choose_output_dir(Some(b"out".to_vec()), b"src_dir".to_vec()), b"out".to_vec());
    assert_eq!(choose_output_dir(None, b"src_dir".to_vec()), b"src_dir".to_vec());
}
