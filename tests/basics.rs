use seqkit::basics::{
    add_one, area, calculate_length, change_string, first_word, func_returning_value,
    gives_ownership, largest, largest_char, largest_i32, last_char_of_first_line,
    takes_and_gives_back, triangle_v1, triangle_v2, Point, Rectangle,
};

#[test]
fn returning_value_adds_one() {
    assert_eq!(func_returning_value(4), 5);
    assert_eq!(func_returning_value(-1), 0);
}

#[test]
fn ownership_round_trip() {
    assert_eq!(gives_ownership(), "yours");
    assert_eq!(takes_and_gives_back(String::from("Hello")), "Hello");
}

#[test]
fn length_is_in_bytes() {
    assert_eq!(calculate_length(&String::from("Hello")), 5);
    assert_eq!(calculate_length(&String::from("Здравствуйте")), 24);
    assert_eq!(calculate_length(&String::new()), 0);
}

#[test]
fn change_string_appends() {
    let mut s = String::from("Hello");
    change_string(&mut s);
    assert_eq!(s, "Hello, World");
}

#[test]
fn first_word_stops_at_a_space() {
    assert_eq!(first_word(&String::from("Goodbye World")), "Goodbye");
    assert_eq!(first_word(&String::from("Make a hay while the sun shine")), "Make");
    assert_eq!(first_word(&String::from("single")), "single");
    assert_eq!(first_word(&String::from(" lead")), "");
    assert_eq!(first_word(&String::new()), "");
    assert_eq!(first_word(&String::from("Зд равствуйте")), "Зд");
}

#[test]
fn rectangles() {
    let rect1 = Rectangle { width: 30, height: 50 };
    let rect2 = Rectangle { width: 10, height: 40 };
    let rect3 = Rectangle { width: 60, height: 45 };
    assert_eq!(area(&rect1), 1500);
    assert_eq!(Rectangle { width: 25, height: 30 }.area(), 750);
    assert!(rect1.can_hold(&rect2));
    assert!(!rect1.can_hold(&rect3));
    assert!(!rect1.can_hold(&rect1));
    let sq = Rectangle::square(3);
    assert_eq!((sq.width, sq.height), (3, 3));
}

#[test]
fn add_one_to_options() {
    assert_eq!(add_one(Some(5)), Some(6));
    assert_eq!(add_one(None), None);
}

#[test]
fn largest_elements() {
    assert_eq!(*largest_i32(&[34, 50, 25, 100, 65]), 100);
    assert_eq!(*largest_i32(&[-3]), -3);
    assert_eq!(*largest_char(&['y', 'm', 'a', 'q']), 'y');
    assert_eq!(*largest(&[34, 50, 25, 100, 65]), 100);
    assert_eq!(*largest(&['s', 'm', 'a', 'q']), 's');
    assert_eq!(*largest(&[1.5f64, 2.5, 0.5]), 2.5);
}

#[test]
fn point_x() {
    let p = Point { x: 5, y: 10 };
    assert_eq!(*p.x(), 5);
    assert_eq!(p.y, 10);
}

#[test]
fn triangle_numbers() {
    assert_eq!(triangle_v1(10), 55);
    assert_eq!(triangle_v2(10), 55);
    assert_eq!(triangle_v1(0), 0);
    assert_eq!(triangle_v2(-5), 0);
    assert_eq!(triangle_v1(65535), 2147450880);
    assert_eq!(triangle_v2(65535), 2147450880);
}

#[test]
fn last_char_of_the_first_line() {
    assert_eq!(last_char_of_first_line("Hello, world\nHow are you?"), Some('d'));
    assert_eq!(last_char_of_first_line(""), None);
    assert_eq!(last_char_of_first_line("\nhi"), None);
    assert_eq!(last_char_of_first_line("ab\r\ncd"), Some('b'));
    assert_eq!(last_char_of_first_line("xyz"), Some('z'));
}
