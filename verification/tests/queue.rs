use metrosim::error::SimError;
use metrosim::passenger::Passenger;
use metrosim::passenger_queue::PassengerQueue;

fn rider(id: u32, arrival: usize, departure: usize) -> Passenger {
    Passenger { id, arrival, departure }
}

#[test]
fn new_queue_is_empty() {
    let q = PassengerQueue::new();
    assert_eq!(q.size(), 0);
    assert!(q.passenger_list.is_empty());
}

#[test]
fn front_of_empty_queue_is_an_error() {
    let q = PassengerQueue::new();
    assert_eq!(q.front(), Err(SimError::EmptyQueue));
}

#[test]
fn dequeue_of_empty_queue_is_an_error_and_changes_nothing() {
    let mut q = PassengerQueue::new();
    assert_eq!(q.dequeue(), Err(SimError::EmptyQueue));
    assert_eq!(q.size(), 0);
    q.enqueue(rider(4, 0, 1));
    assert_eq!(q.dequeue(), Ok(()));
    assert_eq!(q.dequeue(), Err(SimError::EmptyQueue));
    assert_eq!(q.size(), 0);
}

#[test]
fn front_does_not_remove() {
    let mut q = PassengerQueue::new();
    q.enqueue(rider(7, 2, 0));
    assert_eq!(q.front(), Ok(rider(7, 2, 0)));
    assert_eq!(q.front(), Ok(rider(7, 2, 0)));
    assert_eq!(q.size(), 1);
}

#[test]
fn queue_is_first_in_first_out() {
    let mut q = PassengerQueue::new();
    q.enqueue(rider(0, 1, 2));
    q.enqueue(rider(1, 1, 0));
    q.enqueue(rider(2, 1, 2));
    assert_eq!(q.size(), 3);
    assert_eq!(q.front(), Ok(rider(0, 1, 2)));
    assert_eq!(q.dequeue(), Ok(()));
    assert_eq!(q.front(), Ok(rider(1, 1, 0)));
    assert_eq!(q.dequeue(), Ok(()));
    assert_eq!(q.front(), Ok(rider(2, 1, 2)));
    assert_eq!(q.dequeue(), Ok(()));
    assert_eq!(q.size(), 0);
}

#[test]
fn enqueue_appends_at_the_back() {
    let mut q = PassengerQueue::new();
    q.enqueue(rider(3, 0, 1));
    q.enqueue(rider(5, 0, 2));
    assert_eq!(q.passenger_list, vec![rider(3, 0, 1), rider(5, 0, 2)]);
}

#[test]
fn clone_keeps_the_passengers() {
    let mut q = PassengerQueue::new();
    q.enqueue(rider(3, 0, 1));
    q.enqueue(rider(5, 0, 2));
    let copy = q.clone();
    assert_eq!(copy.passenger_list, q.passenger_list);
}

#[test]
fn passenger_is_written_with_id_and_route() {
    assert_eq!(rider(0, 0, 2).to_string(), "[0, 0->2]");
    assert_eq!(rider(17, 3, 10).to_string(), "[17, 3->10]");
    assert_eq!(rider(u32::MAX, 0, 0).to_string(), "[4294967295, 0->0]");
}

#[test]
fn queue_is_written_front_to_back_without_separator() {
    let mut q = PassengerQueue::new();
    assert_eq!(q.to_string(), "");
    q.enqueue(rider(1, 0, 2));
    q.enqueue(rider(12, 0, 1));
    assert_eq!(q.to_string(), "[1, 0->2][12, 0->1]");
}

#[test]
fn error_messages() {
    assert_eq!(SimError::EmptyQueue.message(), "Took from front, when queue was empty");
    assert_eq!(SimError::MalformedCommand.message(), "Malformed Command");
    assert_eq!(SimError::UnknownStation.message(), "Station doesn't exist?");
}
