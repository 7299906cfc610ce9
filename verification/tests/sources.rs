use compyrs::EnvCompletion;
use compyrs::GroupCompletion;
use compyrs::GroupRecord;
use compyrs::HostCompletion;
use compyrs::HostRecord;
use compyrs::ServiceCompletion;
use compyrs::ServiceRecord;
use compyrs::Stringify;
use compyrs::UserCompletion;
use compyrs::UserRecord;
use compyrs::VecCompletion;
use compyrs::WordListCompletion;

fn strings(items: &[&str]) -> Vec<String> {
    items.iter().map(|s| s.to_string()).collect()
}

#[test]
fn env_yields_names_in_order() {
    let vars = vec![
        ("PATH".to_string(), "/bin".to_string()),
        ("HOME".to_string(), "/root".to_string()),
    ];
    let mut src = EnvCompletion::new(vars);
    assert_eq!(src.next(), Some("PATH".to_string()));
    assert_eq!(src.next(), Some("HOME".to_string()));
    assert_eq!(src.next(), None);
    assert_eq!(src.next(), None);
}

#[test]
fn vec_completion_yields_projections() {
    let mut src = VecCompletion::from_elements(strings(&["a", "b"]));
    assert_eq!(src.next(), Some("a".to_string()));
    assert_eq!(src.next(), Some("b".to_string()));
    assert_eq!(src.next(), None);
}

#[test]
fn stringify_projects_records() {
    assert_eq!(GroupRecord { name: "wheel".to_string() }.get_string(), "wheel".to_string());
    assert_eq!(UserRecord { name: "root".to_string() }.get_string(), "root".to_string());
    assert_eq!("plain".to_string().get_string(), "plain".to_string());
}

#[test]
fn groups_yield_names_in_list_order() {
    let groups = vec![
        GroupRecord { name: "wheel".to_string() },
        GroupRecord { name: "audio".to_string() },
        GroupRecord { name: "wheel".to_string() },
    ];
    let mut src = GroupCompletion::new(groups);
    assert_eq!(src.next(), Some("wheel".to_string()));
    assert_eq!(src.next(), Some("audio".to_string()));
    assert_eq!(src.next(), Some("wheel".to_string()));
    assert_eq!(src.next(), None);
}

#[test]
fn users_yield_names_in_list_order() {
    let users = vec![
        UserRecord { name: "root".to_string() },
        UserRecord { name: "daemon".to_string() },
    ];
    let mut src = UserCompletion::new(users);
    assert_eq!(src.next(), Some("root".to_string()));
    assert_eq!(src.next(), Some("daemon".to_string()));
    assert_eq!(src.next(), None);
}

fn drain_host(mut src: HostCompletion) -> Vec<String> {
    let mut out = Vec::new();
    while let Some(name) = src.next() {
        out.push(name);
    }
    out
}

#[test]
fn shared_host_alias_appears_exactly_once() {
    let records = vec![
        HostRecord { names: strings(&["localhost", "shared"]) },
        HostRecord { names: strings(&["gateway", "shared"]) },
    ];
    let out = drain_host(HostCompletion::new(records));
    assert_eq!(out.iter().filter(|n| n.as_str() == "shared").count(), 1);
    let mut sorted = out.clone();
    sorted.sort();
    assert_eq!(sorted, strings(&["gateway", "localhost", "shared"]));
}

fn drain_service(mut src: ServiceCompletion) -> Vec<String> {
    let mut out = Vec::new();
    while let Some(name) = src.next() {
        out.push(name);
    }
    out
}

#[test]
fn shared_service_alias_appears_exactly_once() {
    let records = vec![
        ServiceRecord { name: "http".to_string(), aliases: strings(&["www"]) },
        ServiceRecord { name: "https".to_string(), aliases: strings(&["www", "tls"]) },
    ];
    let out = drain_service(ServiceCompletion::new(records));
    assert_eq!(out.iter().filter(|n| n.as_str() == "www").count(), 1);
    let mut sorted = out.clone();
    sorted.sort();
    assert_eq!(sorted, strings(&["http", "https", "tls", "www"]));
}

#[test]
fn service_name_equal_to_alias_is_not_repeated() {
    let records = vec![
        ServiceRecord { name: "echo".to_string(), aliases: strings(&["echo"]) },
    ];
    let out = drain_service(ServiceCompletion::new(records));
    assert_eq!(out, strings(&["echo"]));
}

fn drain_words(mut src: WordListCompletion) -> Vec<String> {
    let mut out = Vec::new();
    while let Some(word) = src.next() {
        out.push(word);
    }
    out
}

#[test]
fn word_list_splits_on_whitespace_runs() {
    let src = WordListCompletion::new("  foo \t bar\nbaz ");
    assert_eq!(drain_words(src), strings(&["foo", "bar", "baz"]));
}

#[test]
fn word_list_keeps_duplicates() {
    let src = WordListCompletion::new("a a b a");
    assert_eq!(drain_words(src), strings(&["a", "a", "b", "a"]));
}

#[test]
fn empty_word_list_yields_nothing() {
    assert_eq!(drain_words(WordListCompletion::new("")), Vec::<String>::new());
    assert_eq!(drain_words(WordListCompletion::new("   ")), Vec::<String>::new());
}
