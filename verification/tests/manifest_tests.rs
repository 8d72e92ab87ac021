use forge::manifest::{add_dependency, find_first, Added};

fn inserted(content: &str, dep: &str, is_test: bool) -> (String, String) {
    match add_dependency(content, dep, is_test) {
        Added::Inserted { content, line } => (content, line),
        other => panic!("unexpected: {:?}", other),
    }
}

#[test]
fn dependency_of_three_parts_goes_below_its_header() {
    let content = "[project]\nname = \"app\"\n\n[dependencies]\n\"a:b\" = \"1\"\n\n[test-dependencies]\n";
    let (new_content, line) = inserted(content, "com.google.code.gson:gson:2.11.0", false);
    assert_eq!(line, "\"com.google.code.gson:gson\" = \"2.11.0\"");
    assert_eq!(
        new_content,
        "[project]\nname = \"app\"\n\n[dependencies]\n\"com.google.code.gson:gson\" = \"2.11.0\"\n\"a:b\" = \"1\"\n\n[test-dependencies]\n"
    );
}

#[test]
fn test_dependency_goes_below_the_test_header() {
    let content = "[dependencies]\n\n[test-dependencies]\n\"x:y\" = \"1\"\n";
    let (new_content, line) = inserted(content, "org.junit:junit:5", true);
    assert_eq!(line, "\"org.junit:junit\" = \"5\"");
    assert_eq!(new_content, "[dependencies]\n\n[test-dependencies]\n\"org.junit:junit\" = \"5\"\n\"x:y\" = \"1\"\n");
}

#[test]
fn other_dependencies_are_written_whole_with_latest() {
    let (new_content, line) = inserted("[dependencies]\n", "flask", false);
    assert_eq!(line, "\"flask\" = \"latest\"");
    assert_eq!(new_content, "[dependencies]\n\"flask\" = \"latest\"\n");
    let (_, line) = inserted("", "group:artifact", false);
    assert_eq!(line, "\"group:artifact\" = \"latest\"");
    let (_, line) = inserted("", "a:b:c:d", false);
    assert_eq!(line, "\"a:b:c:d\" = \"latest\"");
    let (_, line) = inserted("", "a::1", false);
    assert_eq!(line, "\"a:\" = \"1\"");
}

#[test]
fn missing_section_is_added_at_the_end() {
    let (new_content, _) = inserted("[project]\nname = \"app\"\n", "flask", false);
    assert_eq!(new_content, "[project]\nname = \"app\"\n\n[dependencies]\n\"flask\" = \"latest\"\n");
    let (new_content, _) = inserted("[dependencies]\n", "pytest", true);
    assert_eq!(new_content, "[dependencies]\n\n[test-dependencies]\n\"pytest\" = \"latest\"\n");
    let (new_content, _) = inserted("", "flask", false);
    assert_eq!(new_content, "\n[dependencies]\n\"flask\" = \"latest\"\n");
}

#[test]
fn key_that_the_file_names_is_not_added_again() {
    let content = "[dependencies]\n\"com.google.code.gson:gson\" = \"2.10\"\n";
    assert_eq!(
        add_dependency(content, "com.google.code.gson:gson:2.11.0", false),
        Added::Present { key: "com.google.code.gson:gson".to_string() }
    );
    assert_eq!(
        add_dependency("name = \"flask\"\n", "flask", true),
        Added::Present { key: "flask".to_string() }
    );
}

#[test]
fn header_without_a_line_feed_after_it() {
    let (new_content, _) = inserted("[dependencies]", "flask", false);
    assert_eq!(new_content, "[\"flask\" = \"latest\"\ndependencies]");
}

#[test]
fn first_occurrence_is_found() {
    let chars = |s: &str| s.chars().collect::<Vec<char>>();
    assert_eq!(find_first(&chars("abcabc"), &chars("bc")), Some(1));
    assert_eq!(find_first(&chars("abcabc"), &chars("abcabc")), Some(0));
    assert_eq!(find_first(&chars("abcabc"), &chars("")), Some(0));
    assert_eq!(find_first(&chars("abcabc"), &chars("cb")), None);
    assert_eq!(find_first(&chars("abc"), &chars("abcd")), None);
    assert_eq!(find_first(&chars(""), &chars("")), Some(0));
    assert_eq!(find_first(&chars("aab"), &chars("ab")), Some(1));
    for (text, pat) in [("añb→c", "→"), ("xxxy", "xy"), ("hello", "lo"), ("hello", "l")] {
        let expected = text.find(pat).map(|i| text[..i].chars().count());
        assert_eq!(find_first(&chars(text), &chars(pat)), expected);
    }
}
