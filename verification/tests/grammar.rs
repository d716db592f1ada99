use regex::Regex;
use thanks::mailmap::grammar::{parse_line, Rule};

/// What a line states, as the four patterns of the mailmap format read it.
struct Patterns {
    name: Regex,
    email: Regex,
    both: Regex,
    pair: Regex,
}

fn patterns() -> Patterns {
    let space = r#"\s*"#;
    let name = "([^<>]+)";
    let email = "<([^<>]+)>";
    Patterns {
        name: Regex::new(&format!(r#"^{}{} {}\s*(#.*)?$"#, space, name, email)).unwrap(),
        email: Regex::new(&format!(r#"^{}{} {}\s*(#.*)?$"#, space, email, email)).unwrap(),
        both: Regex::new(&format!(r#"^{}{} {} {}\s*(#.*)?$"#, space, name, email, email)).unwrap(),
        pair: Regex::new(&format!(r#"^{}{} {} {} {}\s*(#.*)?$"#, space, name, email, name, email))
            .unwrap(),
    }
}

fn by_patterns(p: &Patterns, line: &str) -> Option<Vec<String>> {
    if line.starts_with("#") {
        return None;
    }
    let fields = |kind: &str, cap: regex::Captures, n: usize| {
        let mut v = vec![kind.to_string()];
        for i in 1..=n {
            v.push(cap.get(i).unwrap().as_str().to_owned());
        }
        Some(v)
    };
    if let Some(cap) = p.name.captures(line) {
        fields("name", cap, 2)
    } else if let Some(cap) = p.email.captures(line) {
        fields("email", cap, 2)
    } else if let Some(cap) = p.both.captures(line) {
        fields("both", cap, 3)
    } else if let Some(cap) = p.pair.captures(line) {
        fields("pair", cap, 4)
    } else {
        None
    }
}

fn by_grammar(line: &str) -> Option<Vec<String>> {
    match parse_line(line) {
        None => None,
        Some(Rule::Name { name, commit_email }) => Some(vec!["name".to_string(), name, commit_email]),
        Some(Rule::Email { email, commit_email }) => {
            Some(vec!["email".to_string(), email, commit_email])
        }
        Some(Rule::Both { name, email, commit_email }) => {
            Some(vec!["both".to_string(), name, email, commit_email])
        }
        Some(Rule::Pair { name, email, commit_name, commit_email }) => {
            Some(vec!["pair".to_string(), name, email, commit_name, commit_email])
        }
    }
}

fn check(p: &Patterns, line: &str) {
    assert_eq!(by_grammar(line), by_patterns(p, line), "line {:?}", line);
}

fn each_sequence(parts: &[&str], longest: usize, p: &Patterns) {
    let mut counters = vec![0usize; longest];
    for length in 0..=longest {
        for c in counters.iter_mut() {
            *c = 0;
        }
        loop {
            let mut line = String::new();
            for k in 0..length {
                line.push_str(parts[counters[k]]);
            }
            check(p, &line);
            let mut k = 0;
            while k < length {
                counters[k] += 1;
                if counters[k] < parts.len() {
                    break;
                }
                counters[k] = 0;
                k += 1;
            }
            if k == length {
                break;
            }
        }
    }
}

#[test]
fn grammar_reads_chosen_lines_as_the_patterns_do() {
    let p = patterns();
    let lines = [
        "",
        "#",
        "# comment",
        " # comment <a@b>",
        "Other Name <othername@example.com>",
        "Three Four <threefour@example.com> # This is a comment",
        "Three Four <threefour@example.com>#comment",
        "Three Four <threefour@example.com> \t ",
        "Three Four <threefour@example.com> x",
        "<properemail@example.com> <commitemail@example.com>",
        "   <properemail@example.com> <commitemail@example.com>   # c",
        "<properemail@example.com>  <commitemail@example.com>",
        "<properemail@example.com><commitemail@example.com>",
        "Bob Jones <bobjones@example.com> <fakejones@example.com>",
        "Bob Jones  <bobjones@example.com> <fakejones@example.com>",
        "  Bob Jones <bobjones@example.com> <fakejones@example.com>  ",
        "John Doe <johndoe@example.com> That Guy <thatguy@example.com>",
        "John Doe <johndoe@example.com> That Guy <thatguy@example.com> and more",
        "John Doe <johndoe@example.com>  That Guy <thatguy@example.com>",
        "John Doe <johndoe@example.com> <a@b> That Guy <thatguy@example.com>",
        "Am Valid <valid@example.com> Also Valid <alsovalid@example.com> Not Valid <notvalid@example.com>",
        "Name<email>",
        "Name <>",
        "Name < >",
        " <a>",
        "  <a>",
        "   <a>",
        "\t <a>",
        "\u{a0} <a>",
        "\u{3000}\u{2003} <a> <b>",
        "x\u{a0}<a>",
        "Name <a> #",
        "Name <a> #\n",
        "Name <a> \n",
        "Name <a>\n#x",
        "Na\nme <a>",
        "Name <a\nb>",
        "Name <a>> ",
        "Name <<a>",
        "Name >a<",
        "Name <a> <b> <c>",
        "Name <a> <b> Other <c>",
        "Name <a> Other <b> <c>",
        "Name <a> O <b>",
        "Name <a>  <b>",
        "Name <a> \u{e9}l\u{e8}ve <b>",
        "\u{e9}l\u{e8}ve <\u{e9}@b>",
        "N <a>\r",
        "N <a> # c \r",
    ];
    for line in lines.iter() {
        check(&p, line);
    }
}

#[test]
fn grammar_reads_short_lines_as_the_patterns_do() {
    let p = patterns();
    each_sequence(&["a", " ", "<", ">", "#", "\n"], 6, &p);
}

#[test]
fn grammar_reads_lines_of_fields_as_the_patterns_do() {
    let p = patterns();
    each_sequence(&["N", " ", "<e>", "# c", "\t", "<", ">", "N M", "  "], 5, &p);
}

#[test]
fn grammar_reads_long_rules_as_the_patterns_do() {
    let p = patterns();
    each_sequence(&["N ", "<e>", " <e>", " ", "N", " #"], 7, &p);
}
