//! The stored records and their published forms, plus the request-level
//! decisions taken after a storage lookup: what is published on success and
//! which error answers a miss.

use crate::errors::Error;
use crate::object_id::hex_of;
use crate::object_id::ObjectId;
use vstd::prelude::*;

verus! {

/// A stored question: its identifier (absent until stored), the room it
/// belongs to, whether it was answered, its reaction count and its text.
pub struct Question {
    pub id: Option<ObjectId>,
    pub room_id: ObjectId,
    pub answered: bool,
    pub reaction_count: u16,
    pub value: String,
}

impl Question {
    /// A question as first created: unanswered, without reactions, and not
    /// yet assigned an identifier.
    pub fn new(room_id: ObjectId, value: String) -> (q: Question)
        ensures
            q.id is None,
            q.room_id == room_id,
            q.answered == false,
            q.reaction_count == 0,
            q.value == value,
    {
        Question { id: None, room_id: room_id, answered: false, reaction_count: 0, value: value }
    }
}

/// The published form of a stored question.
pub struct PublicQuestion {
    pub id: ObjectId,
    pub answered: bool,
    pub reaction_count: u16,
    pub value: String,
}

impl PublicQuestion {
    /// Publish a stored question; only a stored one carries an identifier.
    pub fn from_question(question: Question) -> (p: PublicQuestion)
        requires
            question.id is Some,
        ensures
            p.id == question.id.unwrap(),
            p.answered == question.answered,
            p.reaction_count == question.reaction_count,
            p.value == question.value,
    {
        match question.id {
            Some(id) => PublicQuestion {
                id: id,
                answered: question.answered,
                reaction_count: question.reaction_count,
                value: question.value,
            },
            None => vstd::pervasive::unreached(),
        }
    }
}

/// A stored room: its identifier (absent until stored), its name and its
/// question count.
pub struct Room {
    pub id: Option<ObjectId>,
    pub name: String,
    pub questions_count: i8,
}

impl Room {
    /// A room as first created: empty and not yet assigned an identifier.
    pub fn new(name: String) -> (r: Room)
        ensures
            r.id is None,
            r.name == name,
            r.questions_count == 0,
    {
        Room { id: None, name: name, questions_count: 0 }
    }
}

/// The published form of a stored room.
pub struct PublicRoom {
    pub id: ObjectId,
    pub name: String,
    pub questions_count: i8,
}

impl PublicRoom {
    /// Publish a stored room; only a stored one carries an identifier.
    pub fn from_room(room: Room) -> (p: PublicRoom)
        requires
            room.id is Some,
        ensures
            p.id == room.id.unwrap(),
            p.name == room.name,
            p.questions_count == room.questions_count,
    {
        match room.id {
            Some(id) => PublicRoom { id: id, name: room.name, questions_count: room.questions_count },
            None => vstd::pervasive::unreached(),
        }
    }
}

/// The body of a request that creates a question: the room it is asked in
/// and its text.
pub struct CreateQuestion {
    pub room_id: String,
    pub value: String,
}

/// The body of a request that updates a question: each field is changed
/// only when given.
pub struct UpdateQuestion {
    pub answered: Option<bool>,
    pub reaction_count: Option<u16>,
}

/// The answer owed to a room lookup: the stored room published, or the
/// not-found error exactly when storage returned nothing.
pub fn room_found_response(found: Option<Room>) -> (r: Result<PublicRoom, Error>)
    requires
        found matches Some(room) ==> room.id is Some,
    ensures
        match found {
            Some(room) => r matches Ok(p) && p.id == room.id.unwrap() && p.name == room.name
                && p.questions_count == room.questions_count,
            None => r matches Err(e) && e matches Error::NotFound(m) && m@ == "Room not found"@,
        },
{
    match found {
        Some(room) => Ok(PublicRoom::from_room(room)),
        None => Err(Error::NotFound("Room not found".to_owned())),
    }
}

/// The answer owed to a question lookup: the stored question published, or
/// the not-found error exactly when storage returned nothing.
pub fn question_found_response(found: Option<Question>) -> (r: Result<PublicQuestion, Error>)
    requires
        found matches Some(question) ==> question.id is Some,
    ensures
        match found {
            Some(question) => r matches Ok(p) && p.id == question.id.unwrap() && p.answered
                == question.answered && p.reaction_count == question.reaction_count && p.value
                == question.value,
            None => r matches Err(e) && e matches Error::NotFound(m) && m@ == "Question not found"@,
        },
{
    match found {
        Some(question) => Ok(PublicQuestion::from_question(question)),
        None => Err(Error::NotFound("Question not found".to_owned())),
    }
}

/// The answer owed to a question update: the updated question published
/// together with the hex text of its room identifier — the room the update
/// is then broadcast to — or the not-found error exactly when storage
/// matched nothing.
pub fn question_update_response(updated: Option<Question>) -> (r: Result<
    (PublicQuestion, String),
    Error,
>)
    requires
        updated matches Some(question) ==> question.id is Some,
    ensures
        match updated {
            Some(question) => r matches Ok(pr) && pr.0.id == question.id.unwrap() && pr.0.answered
                == question.answered && pr.0.reaction_count == question.reaction_count
                && pr.0.value == question.value && pr.1@ == hex_of(question.room_id@),
            None => r matches Err(e) && e matches Error::NotFound(m) && m@ == "Question not found"@,
        },
{
    match updated {
        Some(question) => {
            let room_hex = question.room_id.to_hex();
            let public_question = PublicQuestion::from_question(question);
            Ok((public_question, room_hex))
        },
        None => Err(Error::NotFound("Question not found".to_owned())),
    }
}

/// Publish a whole query result, in order. Every stored question carries an
/// identifier.
pub fn questions_to_public(questions: Vec<Question>) -> (r: Vec<PublicQuestion>)
    requires
        forall|i: int| 0 <= i < questions@.len() ==> (#[trigger] questions@[i]).id is Some,
    ensures
        r@.len() == questions@.len(),
        forall|i: int|
            0 <= i < r@.len() ==> (#[trigger] r@[i]).id == questions@[i].id.unwrap() && r@[i].answered
                == questions@[i].answered && r@[i].reaction_count == questions@[i].reaction_count
                && r@[i].value == questions@[i].value,
{
    let ghost qs = questions@;
    let mut r: Vec<PublicQuestion> = Vec::new();
    let mut rest = questions;
    let mut i: usize = 0;
    let n = rest.len();
    while i < n
        invariant
            n == qs.len(),
            i <= n,
            rest@ == qs.subrange(i as int, n as int),
            r@.len() == i,
            forall|t: int|
                0 <= t < i ==> (#[trigger] r@[t]).id == qs[t].id.unwrap() && r@[t].answered
                    == qs[t].answered && r@[t].reaction_count == qs[t].reaction_count && r@[t].value
                    == qs[t].value,
            forall|t: int| 0 <= t < qs.len() ==> (#[trigger] qs[t]).id is Some,
        decreases n - i,
    {
        let question = rest.remove(0);
        proof {
            assert(question == qs[i as int]);
            assert(rest@ =~= qs.subrange(i as int + 1, n as int));
        }
        r.push(PublicQuestion::from_question(question));
        i = i + 1;
    }
    r
}

} // verus!
