use rew::filter::substr::{get_backward, get_forward};

#[test]
fn substr_empty() {
    assert_eq!(get_forward(String::new(), 0, None), Ok(String::new()));
    assert_eq!(get_backward(String::new(), 0, None), Ok(String::new()));
}

#[test]
fn substr_from_first() {
    assert_eq!(get_forward(String::from("ábčd"), 0, None), Ok(String::from("ábčd")));
    assert_eq!(get_backward(String::from("ábčd"), 0, None), Ok(String::from("ábčd")));
}

#[test]
fn substr_from_last() {
    assert_eq!(get_forward(String::from("ábčd"), 3, None), Ok(String::from("d")));
    assert_eq!(get_backward(String::from("ábčd"), 3, None), Ok(String::from("á")));
}

#[test]
fn substr_from_over() {
    assert_eq!(get_forward(String::from("ábčd"), 4, None), Ok(String::from("")));
    assert_eq!(get_backward(String::from("ábčd"), 4, None), Ok(String::from("")));
}

#[test]
fn substr_to_below() {
    assert_eq!(get_forward(String::from("ábčd"), 0, Some(0)), Ok(String::from("")));
    assert_eq!(get_backward(String::from("ábčd"), 0, Some(0)), Ok(String::from("")));
}

#[test]
fn substr_to_last_but_one() {
    assert_eq!(get_forward(String::from("ábčd"), 0, Some(3)), Ok(String::from("ábč")));
    assert_eq!(get_backward(String::from("ábčd"), 0, Some(3)), Ok(String::from("bčd")));
}

#[test]
fn substr_to_last() {
    assert_eq!(get_forward(String::from("ábčd"), 0, Some(4)), Ok(String::from("ábčd")));
    assert_eq!(get_backward(String::from("ábčd"), 0, Some(4)), Ok(String::from("ábčd")));
}

#[test]
fn substr_to_over() {
    assert_eq!(get_forward(String::from("ábčd"), 0, Some(5)), Ok(String::from("ábčd")));
    assert_eq!(get_backward(String::from("ábčd"), 0, Some(5)), Ok(String::from("ábčd")));
}

#[test]
fn substr_from_first_to_below() {
    assert_eq!(get_forward(String::from("ábčd"), 0, Some(0)), Ok(String::from("")));
    assert_eq!(get_backward(String::from("ábčd"), 0, Some(0)), Ok(String::from("")));
}

#[test]
fn substr_from_first_to_last_but_one() {
    assert_eq!(get_forward(String::from("ábčd"), 0, Some(3)), Ok(String::from("ábč")));
    assert_eq!(get_backward(String::from("ábčd"), 0, Some(3)), Ok(String::from("bčd")));
}

#[test]
fn substr_from_first_to_last() {
    assert_eq!(get_forward(String::from("ábčd"), 0, Some(4)), Ok(String::from("ábčd")));
    assert_eq!(get_backward(String::from("ábčd"), 0, Some(4)), Ok(String::from("ábčd")));
}

#[test]
fn substr_from_last_to_last() {
    assert_eq!(get_forward(String::from("ábčd"), 3, Some(1)), Ok(String::from("d")));
    assert_eq!(get_backward(String::from("ábčd"), 3, Some(1)), Ok(String::from("á")));
}

#[test]
fn substr_from_last_to_over() {
    assert_eq!(get_forward(String::from("ábčd"), 3, Some(2)), Ok(String::from("d")));
    assert_eq!(get_backward(String::from("ábčd"), 3, Some(2)), Ok(String::from("á")));
}

#[test]
fn substr_from_over_to_over() {
    assert_eq!(get_forward(String::from("ábčd"), 4, Some(1)), Ok(String::from("")));
    assert_eq!(get_backward(String::from("ábčd"), 4, Some(1)), Ok(String::from("")));
}

#[test]
fn from_extra_over_to_over() {
    assert_eq!(get_backward(String::from("ábčd"), 5, Some(1)), Ok(String::from("")));
}
