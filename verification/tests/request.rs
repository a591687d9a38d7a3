use focus_send::request::{build_request, frame_request};

fn words(args: &[&str]) -> Vec<String> {
    args.iter().map(|a| a.to_string()).collect()
}

#[test]
fn request_framing() {
    let args = words(&["255", "0", "0"]);
    assert_eq!(frame_request("led.setAll", &args), b"led.setAll 255 0 0\n".to_vec());
    assert_eq!(build_request("led.setAll", &args), "led.setAll 255 0 0\n");
}

#[test]
fn request_without_arguments_is_the_command_and_a_line_feed() {
    assert_eq!(frame_request("version", &Vec::new()), b"version\n".to_vec());
    assert_eq!(build_request("help", &Vec::new()), "help\n");
}

#[test]
fn request_of_a_lone_space() {
    assert_eq!(frame_request(" ", &Vec::new()), vec![0x20, 0x0a]);
}

#[test]
fn request_passes_arguments_through_as_they_are() {
    let args = words(&["", "a b", "x\ny"]);
    assert_eq!(build_request("cmd", &args), "cmd  a b x\ny\n");
}

#[test]
fn request_is_written_in_utf8() {
    let args = words(&["\u{e9}"]);
    assert_eq!(
        frame_request("keymap", &args),
        vec![b'k', b'e', b'y', b'm', b'a', b'p', b' ', 0xc3, 0xa9, b'\n']
    );
}

#[test]
fn request_joins_its_words_with_single_spaces() {
    let pool = ["", "a", "led.at", "0 1", "\u{3b1}"];
    for command in pool {
        for first in pool {
            for second in pool {
                let args = words(&[first, second]);
                let expected = [vec![command.to_string()], args.clone()].concat().join(" ") + "\n";
                assert_eq!(build_request(command, &args), expected);
                assert_eq!(frame_request(command, &args), expected.into_bytes());
            }
        }
    }
}
