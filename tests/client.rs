use std::io::Cursor;

use robotdreams::client::{
    asset_path, has_prefix, image_message, login_message, login_reply, parse_command,
    strip_prefixes, Command,
};
use robotdreams::codec::{encode, DecodeError};
use robotdreams::message::MessageType;
use robotdreams::session::BlobKind;

#[test]
fn quit_command() {
    assert_eq!(parse_command(".quit\n"), Command::Quit);
    assert_eq!(parse_command("  .quit  "), Command::Quit);
}

#[test]
fn file_command() {
    assert_eq!(parse_command(".file example.txt\n"), Command::SendFile("example.txt".to_string()));
}

#[test]
fn image_command() {
    assert_eq!(parse_command(".image rust.jpg"), Command::SendImage("rust.jpg".to_string()));
}

#[test]
fn text_command_keeps_line() {
    assert_eq!(parse_command("Hello, server!\n"), Command::SendText("Hello, server!\n".to_string()));
}

#[test]
fn prefix_helpers() {
    assert!(has_prefix(".filex", ".file"));
    assert!(!has_prefix(".fil", ".file"));
    assert_eq!(strip_prefixes(".file .file a", ".file "), "a");
    assert_eq!(strip_prefixes("abc", ""), "abc");
}

#[test]
fn asset_paths() {
    assert_eq!(asset_path(BlobKind::File, "example.txt"), "assets/files/example.txt");
    assert_eq!(asset_path(BlobKind::Image, "rust.jpg"), "assets/images/rust.jpg");
}

#[test]
fn login_message_trims_lines() {
    assert_eq!(
        login_message(" user\n", "password\n"),
        MessageType::Login("user".to_string(), "password".to_string())
    );
}

#[test]
fn login_reply_reads_answer() {
    assert_eq!(login_reply(&encode(&MessageType::LoginResponse(true))), Ok(true));
    assert_eq!(login_reply(&encode(&MessageType::LoginResponse(false))), Ok(false));
    assert_eq!(login_reply(&encode(&MessageType::Quit)), Ok(false));
    assert_eq!(login_reply(&[0x01, 0x02]), Err(DecodeError));
}

#[test]
fn image_message_needs_png() {
    assert_eq!(image_message("a.png", vec![1, 2, 3]), None);
    let img = image::RgbImage::new(2, 2);
    let mut png = Cursor::new(Vec::new());
    img.write_to(&mut png, image::ImageOutputFormat::Png).unwrap();
    let bytes = png.into_inner();
    assert_eq!(
        image_message("a.png", bytes.clone()),
        Some(MessageType::Image("a.png".to_string(), bytes))
    );
}
