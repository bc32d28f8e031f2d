use libqaul::error::Error;
use libqaul::helpers::QueryResult;
use libqaul::identity::Identity;
use libqaul::messages::Message;
use libqaul::store::library::Library;
use libqaul::store::query::Query;
use libqaul::store::record::{apply_change, Change, Diff, Kv, Path, Session, Value, GLOBAL};
use libqaul::tags::{Tag, TagSet};

fn id(n: u8) -> Identity {
    Identity::from_bytes(&[n; 32]).unwrap()
}

fn path(p: &str) -> Path {
    Path::new(p.to_string())
}

fn tags(keys: &[&str]) -> TagSet {
    TagSet::from(keys.iter().map(|k| Tag::empty(k)).collect::<Vec<Tag>>())
}

fn bin(rec: &libqaul::store::record::Record, key: &str) -> Vec<u8> {
    match rec.kv().get(key) {
        Some(Value::Bin(b)) => b.clone(),
        other => panic!("{:?}", other),
    }
}

fn paths_of(lib: &Library, session: Session, q: &Query) -> Vec<String> {
    let mut it = lib.query(session, q).unwrap();
    let mut out = vec![];
    while let Ok(Some(rec)) = lib.next(&mut it) {
        out.push(rec.path().as_str().to_string());
    }
    out
}

#[test]
fn a_batch_makes_a_record_and_a_query_reads_it() {
    let mut lib = Library::new();
    lib.batch(
        GLOBAL,
        path("/a"),
        tags(&["x"]),
        vec![Diff::insert("k", Value::Bin(vec![1])), Diff::insert("n", Value::Int(7))],
    )
    .unwrap();
    assert_eq!(lib.path_exists(GLOBAL, &path("/a")), Ok(true));
    assert_eq!(lib.path_exists(GLOBAL, &path("/b")), Ok(false));

    let mut it = lib.query(GLOBAL, &Query::path(path("/a"))).unwrap();
    assert_eq!(it.remaining(), 1);
    let rec = lib.next(&mut it).unwrap().unwrap();
    assert_eq!(rec.path().as_str(), "/a");
    assert_eq!(rec.session(), GLOBAL);
    assert_eq!(rec.version(), 1);
    assert!(rec.tags().equality(&tags(&["x"])));
    assert_eq!(bin(&rec, "k"), vec![1]);
    assert!(matches!(rec.kv().get("n"), Some(Value::Int(7))));
    assert_eq!(rec.kv().len(), 2);
    assert!(lib.next(&mut it).unwrap().is_none());
    assert_eq!(it.remaining(), 0);
}

#[test]
fn a_second_batch_unites_the_tags_and_folds_the_diffs() {
    let mut lib = Library::new();
    lib.batch(GLOBAL, path("/a"), tags(&["x", "y"]), vec![Diff::insert("k", Value::Bin(vec![1]))])
        .unwrap();
    lib.batch(
        GLOBAL,
        path("/a"),
        tags(&["y", "z"]),
        vec![
            Diff::update("k", Value::Bin(vec![2])),
            Diff::insert("s", Value::Str("text".to_string())),
            Diff::insert("gone", Value::Int(0)),
            Diff::delete("gone"),
        ],
    )
    .unwrap();
    let rec = lib.get(GLOBAL, &path("/a")).unwrap();
    assert!(rec.tags().equality(&tags(&["x", "y", "z"])));
    assert_eq!(bin(&rec, "k"), vec![2]);
    assert!(matches!(rec.kv().get("s"), Some(Value::Str(s)) if s == "text"));
    assert!(rec.kv().get("gone").is_none());
    assert_eq!(rec.version(), 2);
}

#[test]
fn tag_diffs_come_after_the_union() {
    let mut lib = Library::new();
    lib.batch(
        GLOBAL,
        path("/a"),
        tags(&["x", "y"]),
        vec![Diff::TagRemove(Tag::empty("x")), Diff::TagAdd(Tag::empty("w")), Diff::TagRemove(Tag::empty("none"))],
    )
    .unwrap();
    let rec = lib.get(GLOBAL, &path("/a")).unwrap();
    assert!(rec.tags().equality(&tags(&["w", "y"])));
}

#[test]
fn a_refused_batch_changes_nothing() {
    let mut lib = Library::new();
    lib.batch(GLOBAL, path("/a"), tags(&["x"]), vec![Diff::insert("k", Value::Int(1))]).unwrap();
    // insert of a key that is there
    let r = lib.batch(
        GLOBAL,
        path("/a"),
        tags(&["new"]),
        vec![Diff::insert("fresh", Value::Int(2)), Diff::insert("k", Value::Int(3))],
    );
    assert_eq!(r, Err(Error::InvalidPayload));
    // update and delete of a key that is not there
    let r = lib.batch(GLOBAL, path("/a"), tags(&[]), vec![Diff::update("nope", Value::Int(1))]);
    assert_eq!(r, Err(Error::NoData));
    let r = lib.batch(GLOBAL, path("/b"), tags(&[]), vec![Diff::delete("nope")]);
    assert_eq!(r, Err(Error::NoData));
    // a path that does not begin with a slash, and an empty one
    assert_eq!(lib.batch(GLOBAL, path("a"), tags(&[]), vec![]), Err(Error::InvalidQuery));
    assert_eq!(lib.batch(GLOBAL, path(""), tags(&[]), vec![]), Err(Error::InvalidQuery));
    // a namespace that is not open
    assert_eq!(lib.batch(Session::Id(id(1)), path("/a"), tags(&[]), vec![]), Err(Error::NotAuthorised));

    let rec = lib.get(GLOBAL, &path("/a")).unwrap();
    assert!(rec.tags().equality(&tags(&["x"])));
    assert_eq!(rec.kv().len(), 1);
    assert_eq!(rec.version(), 1);
    assert_eq!(lib.path_exists(GLOBAL, &path("/b")), Ok(false));
}

#[test]
fn namespaces_are_apart() {
    let mut lib = Library::new();
    let u = Session::Id(id(1));
    assert!(!lib.has_user(&id(1)));
    assert_eq!(lib.path_exists(u, &path("/a")), Err(Error::NotAuthorised));
    assert!(matches!(lib.query(u, &Query::tags().subset(tags(&[]))), Err(Error::NotAuthorised)));
    lib.add_user(id(1));
    lib.add_user(id(1));
    assert!(lib.has_user(&id(1)));
    assert!(lib.allows(&u) && lib.allows(&GLOBAL) && !lib.allows(&Session::Id(id(2))));

    lib.batch(u, path("/mine"), tags(&["t"]), vec![]).unwrap();
    lib.batch(GLOBAL, path("/ours"), tags(&["t"]), vec![]).unwrap();
    lib.batch(GLOBAL, path("/mine"), tags(&["other"]), vec![]).unwrap();
    let q = Query::tags().subset(tags(&["t"]));
    assert_eq!(paths_of(&lib, GLOBAL, &q), vec!["/ours"]);
    assert_eq!(paths_of(&lib, u, &q), vec!["/mine"]);
    assert_eq!(lib.path_exists(u, &path("/ours")), Ok(false));
    assert!(lib.get(u, &path("/mine")).unwrap().tags().equality(&tags(&["t"])));
    assert!(lib.get(GLOBAL, &path("/mine")).unwrap().tags().equality(&tags(&["other"])));
}

#[test]
fn tag_queries() {
    let mut lib = Library::new();
    lib.batch(GLOBAL, path("/c"), tags(&["a", "b", "c"]), vec![]).unwrap();
    lib.batch(GLOBAL, path("/a"), tags(&["a"]), vec![]).unwrap();
    lib.batch(GLOBAL, path("/b"), tags(&["a", "b"]), vec![]).unwrap();
    lib.batch(GLOBAL, path("/none"), tags(&[]), vec![]).unwrap();

    let all = vec!["/a", "/b", "/c", "/none"];
    assert_eq!(paths_of(&lib, GLOBAL, &Query::tags().subset(tags(&[]))), all);
    assert_eq!(paths_of(&lib, GLOBAL, &Query::tags().subset(tags(&["a"]))), vec!["/a", "/b", "/c"]);
    assert_eq!(paths_of(&lib, GLOBAL, &Query::tags().subset(tags(&["a", "b"]))), vec!["/b", "/c"]);
    assert_eq!(paths_of(&lib, GLOBAL, &Query::tags().subset(tags(&["z"]))), Vec::<String>::new());
    assert_eq!(paths_of(&lib, GLOBAL, &Query::tags().intersect(tags(&["b", "z"]))), vec!["/b", "/c"]);
    assert_eq!(paths_of(&lib, GLOBAL, &Query::tags().intersect(tags(&[]))), Vec::<String>::new());
    assert_eq!(paths_of(&lib, GLOBAL, &Query::tags().equality(tags(&["b", "a"]))), vec!["/b"]);
    assert_eq!(paths_of(&lib, GLOBAL, &Query::tags().equality(tags(&[]))), vec!["/none"]);
    assert_eq!(paths_of(&lib, GLOBAL, &Query::tags().not(tags(&["b"]))), vec!["/a", "/none"]);
    assert_eq!(paths_of(&lib, GLOBAL, &Query::tags().not(tags(&[]))), all);
    assert!(matches!(lib.query(GLOBAL, &Query::path(path("nope"))), Err(Error::InvalidQuery)));
    assert_eq!(paths_of(&lib, GLOBAL, &Query::path(path("/nope"))), Vec::<String>::new());
}

#[test]
fn iterators_skip_and_merge_in_path_order() {
    let mut lib = Library::new();
    let u = Session::Id(id(9));
    lib.add_user(id(9));
    for p in ["/1", "/3", "/5"] {
        lib.batch(GLOBAL, path(p), tags(&["t"]), vec![]).unwrap();
    }
    for p in ["/2", "/3", "/6"] {
        lib.batch(u, path(p), tags(&["t"]), vec![]).unwrap();
    }
    let q = Query::tags().subset(tags(&["t"]));
    let mut glb = lib.query(GLOBAL, &q).unwrap();
    let usr = lib.query(u, &q).unwrap();
    assert_eq!(glb.remaining(), 3);
    glb.merge(usr).unwrap();
    assert_eq!(glb.remaining(), 6);
    let mut seen = vec![];
    while let Ok(Some(rec)) = lib.next(&mut glb) {
        seen.push((rec.path().as_str().to_string(), rec.session() == GLOBAL));
    }
    assert_eq!(
        seen,
        vec![
            ("/1".to_string(), true),
            ("/2".to_string(), false),
            ("/3".to_string(), true),
            ("/3".to_string(), false),
            ("/5".to_string(), true),
            ("/6".to_string(), false)
        ]
    );

    let mut it = lib.query(GLOBAL, &q).unwrap();
    it.skip(2);
    assert_eq!(it.remaining(), 1);
    assert_eq!(lib.next(&mut it).unwrap().unwrap().path().as_str(), "/5");
    it.skip(10);
    assert_eq!(it.remaining(), 0);
    let mut it = lib.query(GLOBAL, &q).unwrap();
    it.skip(4);
    assert_eq!(it.remaining(), 0);
}

#[test]
fn deletion_waits_for_the_last_reader() {
    let mut lib = Library::new();
    lib.batch(GLOBAL, path("/a"), tags(&["t"]), vec![]).unwrap();
    lib.batch(GLOBAL, path("/b"), tags(&["t"]), vec![]).unwrap();
    let q = Query::tags().subset(tags(&["t"]));

    // without a reader the record goes at once, and the iterator misses it
    let mut it = lib.query(GLOBAL, &q).unwrap();
    lib.delete(GLOBAL, &path("/a")).unwrap();
    assert_eq!(lib.path_exists(GLOBAL, &path("/a")), Ok(false));
    assert_eq!(lib.next(&mut it).unwrap_err(), Error::NoData);
    assert_eq!(lib.next(&mut it).unwrap().unwrap().path().as_str(), "/b");
    assert_eq!(lib.delete(GLOBAL, &path("/a")), Err(Error::NoData));
    assert_eq!(lib.delete(GLOBAL, &path("a")), Err(Error::InvalidQuery));
    assert_eq!(lib.delete(Session::Id(id(1)), &path("/a")), Err(Error::NotAuthorised));

    // with two readers it stays until both have let go
    lib.batch(GLOBAL, path("/a"), tags(&["t"]), vec![]).unwrap();
    let mut one = lib.query(GLOBAL, &q).unwrap();
    let mut two = lib.query(GLOBAL, &q).unwrap();
    assert!(!one.is_locked());
    lib.lock(&mut one);
    lib.lock(&mut one);
    lib.lock(&mut two);
    assert!(one.is_locked() && two.is_locked());
    lib.delete(GLOBAL, &path("/a")).unwrap();
    lib.delete(GLOBAL, &path("/b")).unwrap();
    assert_eq!(lib.path_exists(GLOBAL, &path("/a")), Ok(true));
    assert_eq!(lib.next(&mut one).unwrap().unwrap().path().as_str(), "/a");
    let mut late = lib.query(GLOBAL, &q).unwrap();
    assert!(matches!(late.merge(two), Err(Error::InvalidQuery)));
    lib.release(one);
    assert_eq!(lib.path_exists(GLOBAL, &path("/a")), Ok(true));
    let unlocked = lib.query(GLOBAL, &q).unwrap();
    lib.release(unlocked);
    assert_eq!(lib.path_exists(GLOBAL, &path("/a")), Ok(true));
    let mut two = lib.query(GLOBAL, &q).unwrap();
    lib.lock(&mut two);
    lib.release(two);
    // three locks were taken and two released
    assert_eq!(lib.path_exists(GLOBAL, &path("/b")), Ok(true));
    let mut last = lib.query(GLOBAL, &q).unwrap();
    last.skip(0);
    let mut holder = lib.query(GLOBAL, &q).unwrap();
    lib.lock(&mut holder);
    lib.release(holder);
    lib.release(last);
    let mut third = lib.query(GLOBAL, &q).unwrap();
    assert_eq!(third.remaining(), 2);
    lib.lock(&mut third);
    lib.release(third);
    assert!(lib.path_exists(GLOBAL, &path("/a")).is_ok());
}

#[test]
fn the_last_release_removes_what_waited() {
    let mut lib = Library::new();
    lib.batch(GLOBAL, path("/a"), tags(&["t"]), vec![]).unwrap();
    lib.batch(GLOBAL, path("/b"), tags(&["t"]), vec![]).unwrap();
    let q = Query::tags().subset(tags(&["t"]));
    let mut one = lib.query(GLOBAL, &q).unwrap();
    let mut two = lib.query(GLOBAL, &q).unwrap();
    lib.lock(&mut one);
    lib.lock(&mut two);
    lib.delete(GLOBAL, &path("/a")).unwrap();
    lib.release(one);
    assert_eq!(lib.path_exists(GLOBAL, &path("/a")), Ok(true));
    lib.release(two);
    assert_eq!(lib.path_exists(GLOBAL, &path("/a")), Ok(false));
    assert_eq!(lib.path_exists(GLOBAL, &path("/b")), Ok(true));
    assert_eq!(paths_of(&lib, GLOBAL, &q), vec!["/b"]);
}

#[test]
fn a_subscription_sees_the_batches_that_come_after_it() {
    let mut lib = Library::new();
    lib.add_user(id(1));
    let u = Session::Id(id(1));
    lib.batch(u, path("/before"), tags(&["t"]), vec![]).unwrap();
    let sub = lib.subscribe(u, Query::tags().subset(tags(&["t"]))).unwrap();
    assert_eq!(sub.id, 0);
    assert!(lib.poll(&sub).unwrap().is_none());

    lib.batch(u, path("/one"), tags(&["t", "more"]), vec![]).unwrap();
    lib.batch(u, path("/other"), tags(&["s"]), vec![]).unwrap();
    lib.batch(GLOBAL, path("/global"), tags(&["t"]), vec![]).unwrap();
    lib.batch(u, path("/two"), tags(&["t"]), vec![]).unwrap();
    lib.batch(u, path("/one"), tags(&[]), vec![Diff::insert("k", Value::Int(1))]).unwrap();
    // refused batches are not seen
    assert!(lib.batch(u, path("/three"), tags(&["t"]), vec![Diff::delete("k")]).is_err());

    let seen: Vec<String> = std::iter::from_fn(|| lib.poll(&sub).unwrap())
        .map(|p| p.as_str().to_string())
        .collect();
    assert_eq!(seen, vec!["/one", "/two", "/one"]);
    assert!(lib.poll(&sub).unwrap().is_none());

    let second = lib.subscribe(u, Query::path(path("/two"))).unwrap();
    assert_eq!(second.id, 1);
    lib.unsubscribe(sub);
    assert!(matches!(lib.poll(&sub), Err(Error::NoData)));
    lib.batch(u, path("/two"), tags(&[]), vec![]).unwrap();
    assert_eq!(lib.poll(&second).unwrap().unwrap().as_str(), "/two");
    assert!(matches!(lib.subscribe(Session::Id(id(2)), Query::tags().not(tags(&[]))), Err(Error::NotAuthorised)));
    assert!(matches!(lib.subscribe(u, Query::path(path("x"))), Err(Error::InvalidQuery)));
}

#[test]
fn changes_of_keys() {
    let mut kv = Kv::new();
    assert_eq!(apply_change(&mut kv, "a".to_string(), Change::Update(Value::Int(1))), Err(Error::NoData));
    assert_eq!(apply_change(&mut kv, "a".to_string(), Change::Delete), Err(Error::NoData));
    assert_eq!(apply_change(&mut kv, "a".to_string(), Change::Insert(Value::Int(1))), Ok(()));
    assert_eq!(
        apply_change(&mut kv, "a".to_string(), Change::Insert(Value::Int(2))),
        Err(Error::InvalidPayload)
    );
    assert!(matches!(kv.get("a"), Some(Value::Int(1))));
    assert_eq!(apply_change(&mut kv, "a".to_string(), Change::Update(Value::Int(3))), Ok(()));
    assert!(matches!(kv.get("a"), Some(Value::Int(3))));
    assert_eq!(apply_change(&mut kv, "b".to_string(), Change::Insert(Value::Bin(vec![]))), Ok(()));
    assert_eq!(kv.len(), 2);
    assert_eq!(apply_change(&mut kv, "a".to_string(), Change::Delete), Ok(()));
    assert!(kv.get("a").is_none() && kv.contains_key("b"));
    assert_eq!(kv.len(), 1);
}

#[test]
fn paths() {
    assert!(path("/").is_rooted());
    assert!(path("/msg:00").is_rooted());
    assert!(!path("").is_rooted());
    assert!(!path("msg").is_rooted());
    assert!(!path(" /").is_rooted());
    assert!(path("/a").before(&path("/b")));
    assert!(path("/a").before(&path("/a/")));
    assert!(!path("/a").before(&path("/a")));
    assert!(path("/a").same(&path("/a")));
    assert!(!path("/a").same(&path("/A")));
}

#[test]
fn results_are_read_in_runs() {
    let mut lib = Library::new();
    let make = |lib: &mut Library, p: &str, whole: bool| {
        let mut diffs = vec![
            Diff::insert("id", Value::Bin(vec![1; 32])),
            Diff::insert("sender", Value::Bin(vec![2; 32])),
            Diff::insert("associate", Value::Str("svc".to_string())),
        ];
        if whole {
            diffs.push(Diff::insert("payload", Value::Bin(p.as_bytes().to_vec())));
        }
        lib.batch(GLOBAL, path(p), tags(&["m"]), diffs).unwrap();
    };
    for p in ["/1", "/2", "/3", "/5", "/6"] {
        make(&mut lib, p, true);
    }
    make(&mut lib, "/4", false);
    let q = Query::tags().subset(tags(&["m"]));
    let payloads = |v: Vec<Message>| v.into_iter().map(|m| String::from_utf8(m.payload).unwrap()).collect::<Vec<_>>();

    // every readable record, the broken one left out
    let mut res: QueryResult<Message> = QueryResult::new(lib.query(GLOBAL, &q).unwrap());
    assert_eq!(res.remaining(), 6);
    assert_eq!(payloads(res.resolve(&lib)), vec!["/1", "/2", "/3", "/5", "/6"]);
    assert_eq!(res.remaining(), 0);

    // up to the first record that cannot be read
    let mut res: QueryResult<Message> = QueryResult::new(lib.query(GLOBAL, &q).unwrap());
    assert_eq!(payloads(res.all(&lib).unwrap()), vec!["/1", "/2", "/3"]);
    assert_eq!(res.remaining(), 2);
    assert_eq!(payloads(res.all(&lib).unwrap()), vec!["/5", "/6"]);
    assert_eq!(payloads(res.all(&lib).unwrap()), Vec::<String>::new());

    // a run ends after one more than was asked for
    let mut res: QueryResult<Message> = QueryResult::new(lib.query(GLOBAL, &q).unwrap());
    assert_eq!(payloads(res.take(&lib, 0).unwrap()), vec!["/1"]);
    assert_eq!(payloads(res.take(&lib, 1).unwrap()), vec!["/2", "/3"]);
    assert_eq!(payloads(res.take(&lib, 5).unwrap()), Vec::<String>::new());
    assert_eq!(res.remaining(), 2);
    assert_eq!(res.next(&lib).unwrap().payload, b"/5");
    res.skip(1);
    assert_eq!(res.next(&lib).unwrap_err(), Error::NoData);
    assert_eq!(res.take(&lib, 3).unwrap_err(), Error::NoData);

    // the largest number asks for all
    let mut res: QueryResult<Message> = QueryResult::new(lib.query(GLOBAL, &q).unwrap());
    assert_eq!(payloads(res.take(&lib, usize::MAX).unwrap()), vec!["/1", "/2", "/3"]);
    assert_eq!(payloads(res.take(&lib, usize::MAX - 1).unwrap()), vec!["/5", "/6"]);

    let mut res: QueryResult<Message> = QueryResult::new(lib.query(GLOBAL, &q).unwrap());
    res.lock(&mut lib);
    lib.delete(GLOBAL, &path("/1")).unwrap();
    assert_eq!(res.next(&lib).unwrap().payload, b"/1");
    lib.release(res.into_inner());
    assert_eq!(lib.path_exists(GLOBAL, &path("/1")), Ok(false));
}
