use calendarbot::reconcile::{
    DeliveryState, DeliveryEvent, start_delivery, delivery_step, message_id_write_back,
};

#[test]
fn stored_message_is_edited_first() {
    assert_eq!(start_delivery(Some(500)), DeliveryState::Editing(500));
}

#[test]
fn no_stored_message_creates_directly() {
    assert_eq!(start_delivery(None), DeliveryState::Creating);
}

#[test]
fn successful_edit_keeps_the_id() {
    let s = start_delivery(Some(500));
    let s = delivery_step(s, DeliveryEvent::EditSucceeded);
    assert_eq!(s, DeliveryState::Delivered(500));
    // A pure edit cannot change the id, so nothing is persisted.
    assert_eq!(message_id_write_back(Some(500), 500), None);
}

#[test]
fn failed_edit_falls_back_to_create_and_persists_new_id() {
    // The stored message was deleted: the edit fails, a new message is
    // created, and its id replaces the stored one.
    let s = start_delivery(Some(500));
    let s = delivery_step(s, DeliveryEvent::EditFailed);
    assert_eq!(s, DeliveryState::Creating);
    let s = delivery_step(s, DeliveryEvent::CreateSucceeded(777));
    assert_eq!(s, DeliveryState::Delivered(777));
    assert_eq!(message_id_write_back(Some(500), 777), Some(777));
}

#[test]
fn fresh_creation_persists_the_id() {
    let s = start_delivery(None);
    let s = delivery_step(s, DeliveryEvent::CreateSucceeded(777));
    assert_eq!(s, DeliveryState::Delivered(777));
    assert_eq!(message_id_write_back(None, 777), Some(777));
}

#[test]
fn failed_creation_ends_the_attempt() {
    // The stored id is left alone; the next cycle retries.
    let s = start_delivery(None);
    let s = delivery_step(s, DeliveryEvent::CreateFailed);
    assert_eq!(s, DeliveryState::Failed);
}

#[test]
fn terminal_states_absorb_everything() {
    let d = DeliveryState::Delivered(7);
    assert_eq!(delivery_step(d, DeliveryEvent::EditFailed), d);
    assert_eq!(delivery_step(d, DeliveryEvent::CreateSucceeded(9)), d);
    let f = DeliveryState::Failed;
    assert_eq!(delivery_step(f, DeliveryEvent::CreateSucceeded(9)), f);
}
