use sokoworld::args::{parse_args, Arg};

#[test]
fn it_parses_equal_args() {
    let args = parse_args(vec![String::from("--foo=bar")]);
    assert_eq!(
        args,
        vec![Arg {
            key: String::from("foo"),
            value: String::from("bar")
        }]
    );
}

#[test]
fn it_parses_space_args() {
    let args = parse_args(vec![String::from("--foo"), String::from("bar")]);
    assert_eq!(
        args,
        vec![Arg {
            key: String::from("foo"),
            value: String::from("bar")
        }]
    );
}

#[test]
fn it_parses_mixed_args() {
    let args = parse_args(vec![
        String::from("--foo=bar"),
        String::from("--name"),
        String::from("brett"),
    ]);

    assert_eq!(
        args,
        vec![
            Arg {
                key: String::from("foo"),
                value: String::from("bar")
            },
            Arg {
                key: String::from("name"),
                value: String::from("brett")
            }
        ]
    )
}

#[test]
fn it_ignores_plain_args() {
    let args = parse_args(vec![String::from("plain"), String::from("also=plain")]);
    assert_eq!(args, vec![]);
}

#[test]
fn it_keeps_only_the_first_value_segment() {
    let args = parse_args(vec![String::from("--a=b=c")]);
    assert_eq!(
        args,
        vec![Arg {
            key: String::from("a"),
            value: String::from("b")
        }]
    );
}

#[test]
fn it_parses_an_empty_value() {
    let args = parse_args(vec![String::from("--flag=")]);
    assert_eq!(
        args,
        vec![Arg {
            key: String::from("flag"),
            value: String::from("")
        }]
    );
}
