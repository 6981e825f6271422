use ogent::cli::{
    attach_image, client_build_exit_code, image_data_url, image_mime_type, is_remote_image, resume_message,
};
use ogent::types::{Message, MessageOrigin};

#[test]
fn test_process_image_arg_remote() {
    let url = "https://example.com/test.jpg";
    assert!(is_remote_image(url));
    assert!(is_remote_image("http://example.com/a.png"));
    assert!(!is_remote_image("images/a.png"));
}

#[test]
fn local_images_become_data_urls() {
    assert_eq!(image_data_url("shot.PNG", b"hi"), "data:image/png;base64,aGk=");
    assert_eq!(image_data_url("a/b.jpeg", b"abc"), "data:image/jpeg;base64,YWJj");
    assert_eq!(image_data_url("noext", b""), "data:image/jpeg;base64,");
    assert_eq!(image_mime_type("gif"), "image/gif");
}

#[test]
fn images_attach_to_the_last_human_message() {
    let mut messages = vec![
        Message::system("sys".to_string()),
        Message::user("task".to_string(), MessageOrigin::Human),
    ];
    attach_image(&mut messages, "https://x/y.png".to_string());
    assert_eq!(messages[1].image_url, Some("https://x/y.png".to_string()));
    let m = resume_message("continue", Some("data:x".to_string())).unwrap();
    assert_eq!(m.content, "continue");
    assert_eq!(m.image_url, Some("data:x".to_string()));
    assert!(resume_message("", None).is_none());
    assert_eq!(client_build_exit_code("anything"), 1);
    assert_eq!(client_build_exit_code("KEY is not set"), 3);
}
