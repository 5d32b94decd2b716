use external_tests::instances::qmp::{SocketAsk, SocketReply, SocketWatch};
use external_tests::instances::{Queriable, Query, QueryType, QMP};

#[test]
fn query_without_arguments() {
    let q = Query::new(QueryType::COMMAND, "query-status");
    assert_eq!(q.compute(), "{\"execute\":\"query-status\",\"arguments\":{}}");
}

#[test]
fn query_with_arguments() {
    let q = Query::new(QueryType::COMMAND, "device_add")
        .arg("driver", "e1000")
        .arg("count", 3)
        .arg("on", true)
        .arg("none", json::JsonValue::Null);
    assert_eq!(
        q.compute(),
        "{\"execute\":\"device_add\",\"arguments\":{\"driver\":\"e1000\",\"count\":3,\"on\":true,\"none\":null}}"
    );
    assert_eq!(q.clone().compute(), q.compute());
}

#[test]
fn last_value_of_an_argument_counts() {
    let q = Query::new(QueryType::COMMAND, "c").arg("a", 1).arg("b", 2).arg("a", "x");
    assert_eq!(q.compute(), "{\"execute\":\"c\",\"arguments\":{\"a\":\"x\",\"b\":2}}");
}

#[test]
fn nested_values() {
    let mut inner = json::JsonValue::new_object();
    inner["k"] = json::JsonValue::from(vec![1, 2]);
    let q = Query::new(QueryType::COMMAND, "c").arg("o", inner);
    assert_eq!(q.compute(), "{\"execute\":\"c\",\"arguments\":{\"o\":{\"k\":[1,2]}}}");
}

#[test]
fn escapes_in_queries() {
    let q = Query::new(QueryType::COMMAND, "\"\\\u{8}\t\n\u{c}\r\u{0}\u{1f}\u{7f}\u{e9}/")
        .arg("a\"", 0);
    assert_eq!(
        q.compute(),
        "{\"execute\":\"\\\"\\\\\\b\\t\\n\\f\\r\\u0000\\u001f\u{7f}\u{e9}/\",\"arguments\":{\"a\\\"\":0}}"
    );
}

struct Fixed;

impl Queriable for Fixed {
    fn compute(&self) -> String {
        "fixed".to_string()
    }
}

#[test]
fn queries_need_a_connection() {
    let mut qmp = QMP::new("a.sock");
    assert_eq!(qmp.path(), "a.sock");
    assert_eq!(qmp.query_and_wait(&Fixed), Err("No connection to running QMP".to_string()));
    assert_eq!(qmp.attach(false).err(), Some("Cant connect to QMP socket".to_string()));
    assert_eq!(qmp.query_and_wait(&Fixed), Err("No connection to running QMP".to_string()));
    assert!(qmp.attach(true).is_ok());
    assert_eq!(qmp.query_and_wait(&Fixed), Ok("fixed".to_string()));
    let q = Query::new(QueryType::COMMAND, "stop");
    assert_eq!(
        qmp.query_and_wait(&q),
        Ok("{\"execute\":\"stop\",\"arguments\":{}}".to_string())
    );
    assert_eq!(QMP::answered(Some("x".to_string())), Ok("x".to_string()));
    assert_eq!(QMP::answered(None), Err("Unknown error".to_string()));
}

fn piece(w: SocketWatch, s: &str) -> SocketWatch {
    assert!(matches!(w.ask(), SocketAsk::Read));
    w.take(SocketReply::Piece(s.to_string())).unwrap()
}

#[test]
fn socket_conversation() {
    let w = QMP::new("a.sock").attach(true).ok().unwrap();
    assert!(matches!(w.ask(), SocketAsk::AwaitReadable));
    let w = w.take(SocketReply::Done).unwrap();
    let w = piece(w, "{\"QMP\": ");
    let w = piece(w, "{}}\r\n");
    for round in ["one", "two"] {
        let mut w2 = QMP::new("a.sock").attach(true).ok().unwrap().take(SocketReply::Done).unwrap();
        w2 = piece(w2, "\n");
        assert!(matches!(w2.ask(), SocketAsk::NextQuery));
        let w2 = w2.take(SocketReply::Query(round.to_string())).unwrap();
        match w2.ask() {
            SocketAsk::Write(t) => assert_eq!(t, round),
            _ => panic!(),
        }
        let w2 = w2.take(SocketReply::Done).unwrap();
        let w2 = piece(w2, "{\"return\"\n: ");
        let w2 = piece(w2, "{}}\n");
        match w2.ask() {
            SocketAsk::Respond(t) => assert_eq!(t, "{\"return\"\n: {}}\n"),
            _ => panic!(),
        }
        let w2 = w2.take(SocketReply::Done).unwrap();
        assert!(matches!(w2.ask(), SocketAsk::NextQuery));
    }
    assert!(matches!(w.ask(), SocketAsk::NextQuery));
    assert!(w.take(SocketReply::Closed).is_none());
}
