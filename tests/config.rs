use spheres::config::{
    coordinate_fields, output_path, PathError, DEFAULT_HEIGHT, DEFAULT_MULTISAMPLING,
    DEFAULT_WIDTH, MAX_BOUNCES,
};

#[test]
fn coordinate_fields_of_a_triple() {
    assert_eq!(coordinate_fields("(1,2.5,-3)"), Some(("1", "2.5", "-3")));
    assert_eq!(coordinate_fields("0,0,-1"), Some(("0", "0", "-1")));
    assert_eq!(coordinate_fields("((1, 2, 3))"), Some(("1", " 2", " 3")));
}

#[test]
fn coordinate_fields_ignore_extra_fields() {
    assert_eq!(coordinate_fields("(1,2,3,4)"), Some(("1", "2", "3")));
    assert_eq!(coordinate_fields("(,,)"), Some(("", "", "")));
}

#[test]
fn coordinate_fields_need_three_fields() {
    assert_eq!(coordinate_fields("(1,2)"), None);
    assert_eq!(coordinate_fields(""), None);
    assert_eq!(coordinate_fields("()"), None);
}

#[test]
fn output_path_defaults_to_scene_name() {
    assert_eq!(output_path("scene.json", None), Ok(String::from("scene.png")));
    assert_eq!(output_path("a.json.json", None), Ok(String::from("a.png.png")));
    assert_eq!(output_path("dir/é.json", None), Ok(String::from("dir/é.png")));
}

#[test]
fn output_path_takes_a_given_png_name() {
    assert_eq!(output_path("scene.json", Some("out.png")), Ok(String::from("out.png")));
}

#[test]
fn output_path_refuses_wrong_extensions() {
    assert_eq!(output_path("scene.txt", None), Err(PathError::SceneNotJson));
    assert_eq!(output_path("scene.txt", Some("out.png")), Err(PathError::SceneNotJson));
    assert_eq!(output_path("scene.json", Some("out.jpg")), Err(PathError::OutputNotPng));
    assert_eq!(output_path("json", None), Err(PathError::SceneNotJson));
}

#[test]
fn defaults_of_the_render() {
    assert_eq!(DEFAULT_WIDTH, 1920);
    assert_eq!(DEFAULT_HEIGHT, 1080);
    assert_eq!(DEFAULT_MULTISAMPLING, 100);
    assert_eq!(MAX_BOUNCES, 10);
}
