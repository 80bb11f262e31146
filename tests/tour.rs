use seqkit::tour::run;

#[test]
fn walkthrough_values() {
    let t = run();
    assert_eq!(t.by_loop, 55);
    assert_eq!(t.by_fold, 55);
    assert_eq!(t.drained, vec!['a', 'r', 't']);
    assert_eq!(t.left, vec!['E', 'h']);
}
