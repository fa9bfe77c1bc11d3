use groupchat_core::presence::{present_people, status_text, Person, PresenceRegistry, ReadersAndWriters, Role, Typing};

fn person(name: &str, t: i64) -> Person {
    Person { name: name.to_string(), last_activity: t }
}

#[test]
fn reader_heartbeat_removes_writer_entry() {
    let mut p = ReadersAndWriters::new();
    p.heartbeat("U".to_string(), Role::Writer, 1_000);
    assert_eq!(p.active(Role::Writer, 1_000).len(), 1);
    p.heartbeat("U".to_string(), Role::Reader, 2_000);
    assert!(p.active(Role::Writer, 2_000).iter().all(|x| x.name != "U"));
    assert_eq!(p.active(Role::Reader, 2_000)[0].name, "U");
}

#[test]
fn entries_expire_after_twenty_seconds() {
    let now = 100_000;
    let mut p = ReadersAndWriters::new();
    p.heartbeat("old".to_string(), Role::Reader, now - 21_000);
    p.heartbeat("recent".to_string(), Role::Reader, now - 19_000);
    p.heartbeat("edge".to_string(), Role::Reader, now - 20_000);
    let names: Vec<String> = p.active(Role::Reader, now).into_iter().map(|x| x.name).collect();
    assert!(!names.contains(&"old".to_string()));
    assert!(names.contains(&"recent".to_string()));
    assert!(names.contains(&"edge".to_string()));
}

#[test]
fn heartbeat_refreshes_a_single_entry() {
    let mut p = ReadersAndWriters::new();
    p.heartbeat("U".to_string(), Role::Reader, 1);
    p.heartbeat("U".to_string(), Role::Reader, 2);
    let r = p.active(Role::Reader, 2);
    assert_eq!(r.len(), 1);
    assert_eq!(r[0].last_activity, 2);
}

#[test]
fn registry_keeps_groups_apart() {
    let mut r = PresenceRegistry::new();
    r.heartbeat(1, "U".to_string(), Role::Writer, 10);
    r.heartbeat(2, "V".to_string(), Role::Reader, 10);
    r.heartbeat(1, "U".to_string(), Role::Reader, 11);
    assert!(r.active(1, Role::Writer, 11).is_empty());
    assert_eq!(r.active(1, Role::Reader, 11)[0].name, "U");
    assert_eq!(r.active(2, Role::Reader, 11)[0].name, "V");
    assert!(r.active(3, Role::Reader, 11).is_empty());
}

#[test]
fn status_line_prefers_writers() {
    let readers = vec![person("Ann", 0)];
    let writers = vec![person("Bob", 0), person("Cid", 0)];
    assert_eq!(status_text(&readers, &writers, 0), "Bob and Cid are writing.");
    assert_eq!(status_text(&readers, &writers[..1].to_vec(), 2), "Bob is writing...");
    assert_eq!(status_text(&readers, &Vec::new(), 1), "Ann is looking");
    let two = vec![person("Ann", 0), person("Dee", 0)];
    assert_eq!(status_text(&two, &Vec::new(), 1), "Ann and Dee are looking");
    assert_eq!(status_text(&Vec::new(), &Vec::new(), 1), "No one is here");
    assert_eq!(status_text(&Vec::new(), &writers, 4), "Bob and Cid are writing..");
}

#[test]
fn typing_reverts_to_reader_after_two_seconds() {
    let mut t = Typing::new();
    assert_eq!(t.role(), Role::Reader);
    t.on_input(1_000);
    assert_eq!(t.role(), Role::Writer);
    t.tick(2_500);
    assert_eq!(t.role(), Role::Writer);
    t.on_input(2_500);
    t.tick(4_000);
    assert_eq!(t.role(), Role::Writer);
    t.tick(4_500);
    assert_eq!(t.role(), Role::Reader);
    t.on_input(i64::MAX - 1);
    assert_eq!(t.deadline, i64::MAX);
}

#[test]
fn present_people_lists_each_name_once() {
    let readers = vec![person("Ann", 0), person("Bob", 0)];
    let writers = vec![person("Bob", 5), person("Cid", 5)];
    let names: Vec<String> = present_people(&readers, &writers).into_iter().map(|p| p.name).collect();
    assert_eq!(names, vec!["Ann", "Bob", "Cid"]);
    assert!(present_people(&Vec::new(), &Vec::new()).is_empty());
}
