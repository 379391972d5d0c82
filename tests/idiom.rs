use deadfiles::idiom::{has_main_idiom, main_idiom_pattern, split_lines};
use deadfiles::order::{contains_sorted, sorted_set};

#[test]
fn idiom_found_on_its_own_line() {
    let text = "import os\n\nif __name__ == \"__main__\":\n    main()\n";
    assert_eq!(has_main_idiom(text), Some(true));
    assert_eq!(has_main_idiom("if  __name__=='__main__':"), Some(true));
}

#[test]
fn idiom_absent() {
    assert_eq!(has_main_idiom("import a\nprint(__name__)\n"), Some(false));
    assert_eq!(has_main_idiom(""), Some(false));
    assert_eq!(has_main_idiom("if\n__name__ == '__main__':"), Some(false));
}

#[test]
fn matcher_applies_the_pattern() {
    assert_eq!(has_main_idiom("x = 'if\\s+__name__\\s*==\\s*[\"\']__main__[\"\']:'"), Some(false));
    assert_eq!(has_main_idiom("    if\t__name__ ==\"__main__\":  # run"), Some(true));
    assert_eq!(main_idiom_pattern(), r#"if\s+__name__\s*==\s*["']__main__["']:"#);
}

#[test]
fn lines_split_on_newline() {
    assert_eq!(split_lines("a\nb\n"), vec!["a".to_string(), "b".to_string(), String::new()]);
    assert_eq!(split_lines(""), vec![String::new()]);
}

#[test]
fn sorted_set_and_bisection() {
    let v: Vec<String> = ["m", "c", "x", "c", "a"].iter().map(|s| s.to_string()).collect();
    let set = sorted_set(&v);
    assert_eq!(set, vec!["a", "c", "m", "x"]);
    assert!(contains_sorted(&set, &"m".to_string()));
    assert!(!contains_sorted(&set, &"b".to_string()));
    assert!(!contains_sorted(&set, &"z".to_string()));
}

#[test]
fn entrypoint_texts_of_the_example() {
    assert_eq!(has_main_idiom("import a\nif __name__ == '__main__':\n    main()\n"), Some(true));
    assert_eq!(has_main_idiom("if __name__==\"__main__\":\n"), Some(true));
    assert_eq!(has_main_idiom("x = 1\nprint(__name__)\n"), Some(false));
}
