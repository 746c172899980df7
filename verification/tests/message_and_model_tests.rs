use room_hub::errors::Error;
use room_hub::message_data::MessageData;
use room_hub::message_data::MessageKind;
use room_hub::models::question_found_response;
use room_hub::models::question_update_response;
use room_hub::models::questions_to_public;
use room_hub::models::room_found_response;
use room_hub::models::CreateQuestion;
use room_hub::models::UpdateQuestion;
use room_hub::models::PublicQuestion;
use room_hub::models::PublicRoom;
use room_hub::models::Question;
use room_hub::models::Room;
use room_hub::object_id::to_object_id;

#[test]
fn envelope_frames_the_payload_for_each_kind() {
    let m = MessageData::create("{\"x\":1}".to_owned());
    assert_eq!(m.to_json(), "{\"kind\":\"create\",\"data\":{\"x\":1}}");

    let m = MessageData::update("{\"x\":2}".to_owned());
    assert_eq!(m.to_json(), "{\"kind\":\"update\",\"data\":{\"x\":2}}");

    let m = MessageData::delete("null".to_owned());
    assert_eq!(m.to_json(), "{\"kind\":\"delete\",\"data\":null}");
}

#[test]
fn envelope_with_explicit_kind() {
    let m = MessageData::new(MessageKind::Update, "[]".to_owned());
    assert_eq!(m.to_json(), "{\"kind\":\"update\",\"data\":[]}");
    assert_eq!(MessageKind::Create.label(), "create");
    assert_eq!(MessageKind::Delete.label(), "delete");
}

#[test]
fn status_codes_follow_the_error_taxonomy() {
    assert_eq!(Error::ParseObjectID("x".to_owned()).status_code(), 500);
    assert_eq!(Error::NotFound("x".to_owned()).status_code(), 404);
    assert_eq!(Error::InternalServerError("x".to_owned()).status_code(), 500);
    assert_eq!(Error::BadRequest("x".to_owned()).status_code(), 400);
    assert!(matches!(
        Error::bad_request("nope".to_owned()),
        Error::BadRequest(m) if m == "nope"
    ));
}

#[test]
fn new_question_starts_unanswered_without_reactions() {
    let room_id = to_object_id("0123456789abcdef01234567").unwrap();
    let q = Question::new(room_id, "why?".to_owned());
    assert!(q.id.is_none());
    assert!(!q.answered);
    assert_eq!(q.reaction_count, 0);
    assert_eq!(q.value, "why?");
}

#[test]
fn create_question_request_builds_a_new_question() {
    let body = CreateQuestion {
        room_id: "0123456789abcdef01234567".to_owned(),
        value: "why?".to_owned(),
    };
    let room_id = to_object_id(&body.room_id).unwrap();
    let q = Question::new(room_id, body.value.clone());
    assert!(q.id.is_none());
    assert_eq!(q.value, "why?");

    let update = UpdateQuestion {
        answered: Some(true),
        reaction_count: None,
    };
    assert_eq!(update.answered, Some(true));
    assert!(update.reaction_count.is_none());
}

#[test]
fn new_room_starts_empty() {
    let r = Room::new("my room".to_owned());
    assert!(r.id.is_none());
    assert_eq!(r.name, "my room");
    assert_eq!(r.questions_count, 0);
}

#[test]
fn room_lookup_publishes_the_stored_room() {
    let id = to_object_id("0123456789abcdef01234567").unwrap();
    let room = Room {
        id: Some(id),
        name: "my room".to_owned(),
        questions_count: 3,
    };
    let p: PublicRoom = room_found_response(Some(room)).unwrap();
    assert_eq!(p.name, "my room");
    assert_eq!(p.questions_count, 3);
    assert_eq!(p.id.to_hex(), "0123456789abcdef01234567");
}

#[test]
fn missing_room_is_not_found() {
    match room_found_response(None) {
        Err(Error::NotFound(m)) => assert_eq!(m, "Room not found"),
        _ => panic!("a missing room must be a not-found error"),
    }
}

#[test]
fn missing_question_is_not_found() {
    match question_found_response(None) {
        Err(Error::NotFound(m)) => assert_eq!(m, "Question not found"),
        _ => panic!("a missing question must be a not-found error"),
    }
    match question_update_response(None) {
        Err(Error::NotFound(m)) => assert_eq!(m, "Question not found"),
        _ => panic!("an update that matched nothing must be a not-found error"),
    }
}

#[test]
fn question_update_reports_the_room_to_broadcast_to() {
    let qid = to_object_id("aaaaaaaaaaaaaaaaaaaaaaaa").unwrap();
    let rid = to_object_id("FFFFFFFFFFFFFFFFFFFFFFFF").unwrap();
    let question = Question {
        id: Some(qid),
        room_id: rid,
        answered: true,
        reaction_count: 2,
        value: "v".to_owned(),
    };
    let (p, room_hex) = question_update_response(Some(question)).unwrap();
    assert!(p.answered);
    assert_eq!(p.reaction_count, 2);
    // the hex text is normalized to lower case
    assert_eq!(room_hex, "ffffffffffffffffffffffff");
}

#[test]
fn query_results_are_published_in_order() {
    let rid = to_object_id("0123456789abcdef01234567").unwrap();
    let q1 = Question {
        id: Some(to_object_id("000000000000000000000001").unwrap()),
        room_id: rid,
        answered: false,
        reaction_count: 0,
        value: "first".to_owned(),
    };
    let rid2 = to_object_id("0123456789abcdef01234567").unwrap();
    let q2 = Question {
        id: Some(to_object_id("000000000000000000000002").unwrap()),
        room_id: rid2,
        answered: true,
        reaction_count: 9,
        value: "second".to_owned(),
    };
    let published: Vec<PublicQuestion> = questions_to_public(vec![q1, q2]);
    assert_eq!(published.len(), 2);
    assert_eq!(published[0].value, "first");
    assert_eq!(published[1].value, "second");
    assert_eq!(published[1].reaction_count, 9);
    assert_eq!(published[1].id.to_hex(), "000000000000000000000002");
}
