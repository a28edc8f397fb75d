//! Tests of the command-line grammar.

use tasksync::argparse::args::{id_list, minus_tag, plus_tag, tag};
use tasksync::argparse::command::Command;
use tasksync::argparse::filter::Filter;
use tasksync::argparse::modification::{Modification, Status};
use tasksync::argparse::subcommand::Subcommand;
use tasksync::cmd_info::Invocation;
use tasksync::strutil::str_eq;

fn argv(args: &[&str]) -> Vec<String> {
    args.iter().map(|a| a.to_string()).collect()
}

fn cmd(subcommand: Subcommand) -> Command {
    Command {
        command_name: "task".to_owned(),
        subcommand,
    }
}

#[test]
fn test_arg_matching() {
    let args = argv(&["+foo", "bar"]);
    assert_eq!(tag(&args[0]).unwrap(), (true, "foo".to_owned()));
    let args = argv(&["-foo", "bar"]);
    assert_eq!(tag(&args[0]).unwrap(), (false, "foo".to_owned()));
    let args = argv(&["foo", "bar"]);
    assert!(tag(&args[0]).is_none());
}

#[test]
fn test_plus_tag() {
    assert_eq!(plus_tag("+abc").unwrap(), "abc");
    assert_eq!(plus_tag("+abc123").unwrap(), "abc123");
    assert!(plus_tag("-abc123").is_none());
    assert!(plus_tag("+abc123  ").is_none());
    assert!(plus_tag("  +abc123").is_none());
    assert!(plus_tag("+1abc").is_none());
}

#[test]
fn test_minus_tag() {
    assert_eq!(minus_tag("-abc").unwrap(), "abc");
    assert_eq!(minus_tag("-abc123").unwrap(), "abc123");
    assert!(minus_tag("+abc123").is_none());
    assert!(minus_tag("-abc123  ").is_none());
    assert!(minus_tag("  -abc123").is_none());
    assert!(minus_tag("-1abc").is_none());
}

#[test]
fn test_tag() {
    assert_eq!(tag("-abc").unwrap(), (false, "abc".to_owned()));
    assert_eq!(tag("+abc123").unwrap(), (true, "abc123".to_owned()));
    assert!(tag("+abc123 --").is_none());
    assert!(tag("-abc123  ").is_none());
    assert!(tag("  -abc123").is_none());
    assert!(tag("-1abc").is_none());
}

#[test]
fn test_literal() {
    assert!(str_eq("list", "list"));
    assert!(!str_eq("list", "listicle"));
    assert!(!str_eq("list", " list "));
    assert!(!str_eq("list", "LiSt"));
    assert!(!str_eq("list", "denylist"));
}

#[test]
fn test_id_list() {
    assert_eq!(id_list("123").unwrap(), vec!["123".to_owned()]);
    assert_eq!(
        id_list("1,2,34").unwrap(),
        vec!["1".to_owned(), "2".to_owned(), "34".to_owned()]
    );
    assert!(id_list("").is_none());
    assert!(id_list("abc").is_none());
    assert!(id_list("1,,2").is_none());
    assert!(id_list("1,").is_none());
    assert!(id_list(",1").is_none());
    assert!(id_list("12a").is_none());
}

#[test]
fn test_id_list_uuid_prefixes() {
    // a whole group prefix of a UUID is an id: 8, 8-4, 8-4-4, 8-4-4-4 or
    // 8-4-4-4-12 hex digits
    assert_eq!(id_list("deadbeef").unwrap(), vec!["deadbeef".to_owned()]);
    assert_eq!(id_list("DEADBEEF").unwrap(), vec!["DEADBEEF".to_owned()]);
    assert_eq!(
        id_list("deadbeef-1234").unwrap(),
        vec!["deadbeef-1234".to_owned()]
    );
    assert_eq!(
        id_list("deadbeef-1234-5678").unwrap(),
        vec!["deadbeef-1234-5678".to_owned()]
    );
    assert_eq!(
        id_list("deadbeef-1234-5678-9abc").unwrap(),
        vec!["deadbeef-1234-5678-9abc".to_owned()]
    );
    assert_eq!(
        id_list("deadbeef-1234-5678-9abc-def012345678").unwrap(),
        vec!["deadbeef-1234-5678-9abc-def012345678".to_owned()]
    );
    assert_eq!(
        id_list("12,deadbeef").unwrap(),
        vec!["12".to_owned(), "deadbeef".to_owned()]
    );
    // a partial group is not a prefix, and non-hex letters never are
    assert!(id_list("deadbee").is_none());
    assert!(id_list("deadbeef-12").is_none());
    assert!(id_list("deadbeeg").is_none());
    assert!(id_list("deadbeef-1234-").is_none());
}

#[test]
fn test_empty() {
    let args = argv(&[]);
    let (input, modification) = Modification::parse(&args, 0);
    assert_eq!(input, args.len());
    assert_eq!(
        modification,
        Modification {
            ..Default::default()
        }
    );
}

#[test]
fn test_single_arg_description() {
    let args = argv(&["newdesc"]);
    let (input, modification) = Modification::parse(&args, 0);
    assert_eq!(input, args.len());
    assert_eq!(
        modification,
        Modification {
            description: Some("newdesc".to_owned()),
            ..Default::default()
        }
    );
}

#[test]
fn test_multi_arg_description() {
    let args = argv(&["new", "desc", "fun"]);
    let (input, modification) = Modification::parse(&args, 0);
    assert_eq!(input, args.len());
    assert_eq!(
        modification,
        Modification {
            description: Some("new desc fun".to_owned()),
            ..Default::default()
        }
    );
}

#[test]
fn test_multi_arg_description_with_done() {
    let args = argv(&["new", "desc", "done", "fun"]);
    let (input, modification) = Modification::parse(&args, 0);
    assert_eq!(input, args.len());
    assert_eq!(
        modification,
        Modification {
            description: Some("new desc fun".to_owned()),
            status: Some(Status::Completed),
        }
    );
}

#[test]
fn test_add_description() {
    let subcommand = Subcommand::Add(Modification {
        description: Some("foo".to_owned()),
        ..Default::default()
    });
    assert_eq!(
        Command::from_argv(&argv(&["task", "add", "foo"])).unwrap(),
        cmd(subcommand)
    );
}

#[test]
fn test_add_description_multi_arg() {
    let subcommand = Subcommand::Add(Modification {
        description: Some("foo bar bing".to_owned()),
        ..Default::default()
    });
    assert_eq!(
        Command::from_argv(&argv(&["task", "add", "foo", "bar", "bing"])).unwrap(),
        cmd(subcommand)
    );
}

#[test]
fn test_gc() {
    assert_eq!(
        Command::from_argv(&argv(&["task", "gc"])).unwrap(),
        cmd(Subcommand::Gc)
    );
}

#[test]
fn test_gc_extra_args() {
    assert!(Command::from_argv(&argv(&["task", "gc", "uhh"])).is_err());
}

#[test]
fn test_sync() {
    assert_eq!(
        Command::from_argv(&argv(&["task", "sync"])).unwrap(),
        cmd(Subcommand::Sync)
    );
}

#[test]
fn test_modify() {
    let subcommand = Subcommand::Modify {
        filter: Filter {
            id_list: Some(vec!["1".to_owned(), "2".to_owned()]),
        },
        modification: Modification {
            description: Some("newdesc".to_owned()),
            ..Default::default()
        },
    };
    assert_eq!(
        Command::from_argv(&argv(&["task", "1,2", "modify", "newdesc"])).unwrap(),
        cmd(subcommand)
    );
}

#[test]
fn test_info() {
    let (next, sub) = Subcommand::parse(&argv(&["1", "info"]), 0).unwrap();
    assert_eq!(next, 2);
    assert_eq!(
        sub,
        Subcommand::Info {
            filter: Filter {
                id_list: Some(vec!["1".to_owned()]),
            },
            debug: false,
        }
    );
    let (next, sub) = Subcommand::parse(&argv(&["debug"]), 0).unwrap();
    assert_eq!(next, 1);
    assert_eq!(
        sub,
        Subcommand::Info {
            filter: Filter { id_list: None },
            debug: true,
        }
    );
}

#[test]
fn test_list() {
    let (next, sub) = Subcommand::parse(&argv(&["1,2", "list"]), 0).unwrap();
    assert_eq!(next, 2);
    match sub {
        Subcommand::List(report) => {
            assert_eq!(
                report.filter.unwrap().id_list.unwrap(),
                vec!["1".to_owned(), "2".to_owned()]
            );
        }
        other => panic!("{:?}", other),
    }
}

#[test]
fn test_filter_concatenation() {
    // several id-list arguments are one filter: their lists concatenated
    let args = argv(&["1,2", "34", "list"]);
    let (next, filter) = Filter::parse(&args, 0);
    assert_eq!(next, 2);
    assert_eq!(
        filter.id_list.unwrap(),
        vec!["1".to_owned(), "2".to_owned(), "34".to_owned()]
    );
}

#[test]
fn parse_command() {
    let inv = Invocation::arg_match(&argv(&["task", "info", "1"])).unwrap();
    assert_eq!(inv.task, "1".to_string());
    assert!(Invocation::arg_match(&argv(&["task", "info"])).is_none());
    assert!(Invocation::arg_match(&argv(&["task", "list", "1"])).is_none());
}
