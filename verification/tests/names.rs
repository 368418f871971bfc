use keyence_suite::filename::{
    coordinate_tokens, coordinate_tokens_for, gui_metadata, output_filename, output_name_for,
    split_coordinate_pair,
};
use keyence_suite::sender::{command_text, connect_timeout_ms, parse_config, required};
use keyence_suite::text::decimal_string;

#[test]
fn preserves_read_data_and_matching_level_in_output_name() {
    let output = output_filename("readdata:matchinglevel|10-20_30-20_30-40_10-40.BMP").unwrap();
    assert_eq!(output, "readdata_matchinglevel.bmp");
}

#[test]
fn rejects_filename_without_coordinate_separator() {
    assert!(coordinate_tokens("image.BMP").is_err());
}

#[test]
fn splits_sr750_filename_coordinates_after_separator() {
    let tokens = coordinate_tokens(
        "6845415012252701020042700011|66246-295_344-287_351-384_254-391.BMP",
    )
    .unwrap();
    assert_eq!(tokens, vec!["66246-295", "344-287", "351-384", "254-391"]);
    let pairs: Vec<(String, String)> =
        tokens.iter().map(|t| split_coordinate_pair(t).unwrap()).collect();
    assert_eq!(pairs[0], ("66246".to_string(), "295".to_string()));
    assert_eq!(pairs[3], ("254".to_string(), "391".to_string()));
}

#[test]
fn coordinate_errors_name_the_input() {
    assert_eq!(
        coordinate_tokens_for("image.BMP").unwrap_err(),
        "Filename does not contain '|': image.BMP"
    );
    assert_eq!(
        coordinate_tokens_for("m|1-2_3-4.BMP").unwrap_err(),
        "Expected 4 coordinate pairs: m|1-2_3-4.BMP"
    );
    assert_eq!(split_coordinate_pair("12").unwrap_err(), "Invalid coordinate pair: 12");
    assert_eq!(
        coordinate_tokens_for("m|a_b_c_d.bmp").unwrap(),
        vec!["a", "b", "c", "d"]
    );
    assert_eq!(
        coordinate_tokens_for("m|a_b_c_d").unwrap(),
        vec!["a", "b", "c", "d"]
    );
    assert_eq!(
        coordinate_tokens_for("m|a_b_c_d.Bmp").unwrap(),
        vec!["a", "b", "c", "d.Bmp"]
    );
    assert_eq!(
        coordinate_tokens_for("m|a_b_c_d_e.BMP").unwrap_err(),
        "Expected 4 coordinate pairs: m|a_b_c_d_e.BMP"
    );
    assert_eq!(split_coordinate_pair("1-2-3").unwrap(), ("1".to_string(), "2-3".to_string()));
}

#[test]
fn output_name_errors() {
    assert_eq!(
        output_name_for("image.BMP").unwrap_err(),
        "Filename does not contain '|': image.BMP"
    );
    assert_eq!(
        output_name_for("|1-2_3-4_5-6_7-8.BMP").unwrap_err(),
        "Filename metadata before '|' is empty"
    );
    assert_eq!(output_name_for("a:b:c|x").unwrap(), "a_b_c.bmp");
    assert_eq!(output_filename("dir/read:1|x").unwrap(), "read_1.bmp");
}

#[test]
fn viewer_metadata_is_the_part_before_the_separator() {
    assert_eq!(gui_metadata("read:68|1-2_3-4_5-6_7-8.BMP"), "read:68");
    assert_eq!(gui_metadata("plain.BMP"), "plain.BMP");
}

#[test]
fn decimal_rendering() {
    assert_eq!(decimal_string(0), "0");
    assert_eq!(decimal_string(1234567890), "1234567890");
    assert_eq!(decimal_string(u64::MAX), u64::MAX.to_string());
}

#[test]
fn config_lines_are_parsed() {
    let text = "# reader\nreader_address = 192.168.210.200:9004 # SR-750\r\n\n  connect_timeout_ms=250\n";
    let values = parse_config("sr_sender.conf", text).unwrap();
    assert_eq!(required(&values, "reader_address").unwrap(), "192.168.210.200:9004");
    assert_eq!(connect_timeout_ms(&values), Ok(250));
}

#[test]
fn later_config_lines_win() {
    let values = parse_config("c", "a=1\na=2").unwrap();
    assert_eq!(values.get("a"), Some("2".to_string()));
    assert_eq!(values.get("b"), None);
}

#[test]
fn config_defaults_and_errors() {
    let values = parse_config("c", "reader_address=\n").unwrap();
    assert_eq!(required(&values, "reader_address").unwrap_err(), "chybí konfigurace reader_address");
    assert_eq!(required(&values, "other").unwrap_err(), "chybí konfigurace other");
    assert_eq!(connect_timeout_ms(&values), Ok(5000));
    let values = parse_config("c", "connect_timeout_ms=0").unwrap();
    assert_eq!(
        connect_timeout_ms(&values).unwrap_err(),
        "connect_timeout_ms musí být větší než 0"
    );
    let values = parse_config("c", "connect_timeout_ms=abc").unwrap();
    assert_eq!(
        connect_timeout_ms(&values).unwrap_err(),
        format!("neplatný connect_timeout_ms: {}", "abc".parse::<u64>().unwrap_err())
    );
    assert_eq!(
        parse_config("conf", "a=1\n\nno equals here\n").err().unwrap(),
        "conf:3: očekáváno key=value"
    );
}

#[test]
fn command_is_joined_and_ends_with_one_carriage_return() {
    let parts = vec!["READ".to_string(), "NOW\r\r".to_string()];
    assert_eq!(command_text(&parts), "READ NOW\r");
    assert_eq!(command_text(&vec!["LON".to_string()]), "LON\r");
}

#[test]
fn config_trims_unicode_white_space() {
    let values = parse_config("c", "\u{3000}key\u{a0}=\u{2003}value\u{85}\n").unwrap();
    assert_eq!(values.get("key"), Some("value".to_string()));
    let values = parse_config("c", "k=v\u{180e}").unwrap();
    assert_eq!(values.get("k"), Some("v\u{180e}".to_string()));
}

#[test]
fn directory_part_is_dropped_from_image_names() {
    assert_eq!(output_filename("dir/a|1-2_3-4_5-6_7-8.BMP").unwrap(), "a.bmp");
    assert_eq!(output_filename("../x/read:68|1-2_3-4_5-6_7-8.BMP").unwrap(), "read_68.bmp");
    assert_eq!(
        coordinate_tokens("d|ir/m|1-2_3-4_5-6_7-8.BMP").unwrap(),
        vec!["1-2", "3-4", "5-6", "7-8"]
    );
}
