//! Tests of the version-chain extension protocol and its request handling.

use tasksync::api::{
    accept_chunk, history_segment_content_type, parent_version_id_header, service, status_code,
    version_id_header, ApiOutcome, BadRequestReason, MAX_SIZE,
};
use tasksync::ids::NO_VERSION_ID;
use tasksync::server::{add_version, AddVersionResult};
use tasksync::storage::{InMemoryStorage, StorageError};
use uuid::Uuid;

fn extend(
    storage: &mut InMemoryStorage,
    client_id: u128,
    parent_version_id: u128,
    body: &[u8],
) -> ApiOutcome {
    service(
        storage,
        client_id,
        parent_version_id,
        history_segment_content_type(),
        body.to_vec(),
    )
}

#[test]
fn test_success() {
    let client_id = Uuid::new_v4().as_u128();
    let mut storage = InMemoryStorage::new();

    // set up the storage contents..
    {
        let mut txn = storage.txn();
        txn.new_client(client_id, Uuid::nil().as_u128()).unwrap();
        txn.commit(&mut storage);
    }

    let outcome = extend(&mut storage, client_id, Uuid::nil().as_u128(), b"abcd");
    assert_eq!(status_code(&outcome), 200);
    match outcome {
        ApiOutcome::Accepted { version_id } => {
            // the returned version ID is random, but check that it is a real
            // id, distinct from the parent it was stacked on
            assert_ne!(version_id, NO_VERSION_ID);
            assert_eq!(version_id_header(), "X-Version-Id");
        }
        other => panic!("{:?}", other),
    }
}

#[test]
fn test_conflict() {
    let client_id = Uuid::new_v4().as_u128();
    let parent_version_id = Uuid::new_v4().as_u128();
    let mut storage = InMemoryStorage::new();

    // set up a client whose chain already has one version..
    {
        let mut txn = storage.txn();
        txn.new_client(client_id, Uuid::nil().as_u128()).unwrap();
        txn.commit(&mut storage);
    }
    let version_id = match extend(&mut storage, client_id, NO_VERSION_ID, b"abcd") {
        ApiOutcome::Accepted { version_id } => version_id,
        other => panic!("{:?}", other),
    };

    // ..and post a version claiming a different parent
    let outcome = extend(&mut storage, client_id, parent_version_id, b"abcd");
    assert_eq!(status_code(&outcome), 409);
    assert_eq!(
        outcome,
        ApiOutcome::Conflict {
            expected_parent_version_id: version_id
        }
    );
    assert_eq!(parent_version_id_header(), "X-Parent-Version-Id");
}

#[test]
fn test_bad_content_type() {
    let client_id = Uuid::new_v4().as_u128();
    let parent_version_id = Uuid::new_v4().as_u128();
    let mut storage = InMemoryStorage::new();
    let outcome = service(
        &mut storage,
        client_id,
        parent_version_id,
        "not/correct",
        b"abcd".to_vec(),
    );
    assert_eq!(status_code(&outcome), 400);
    assert_eq!(
        outcome,
        ApiOutcome::BadRequest {
            reason: BadRequestReason::WrongContentType
        }
    );
}

#[test]
fn test_empty_body() {
    let client_id = Uuid::new_v4().as_u128();
    let parent_version_id = Uuid::new_v4().as_u128();
    let mut storage = InMemoryStorage::new();
    let outcome = service(
        &mut storage,
        client_id,
        parent_version_id,
        history_segment_content_type(),
        Vec::new(),
    );
    assert_eq!(status_code(&outcome), 400);
    assert_eq!(
        outcome,
        ApiOutcome::BadRequest {
            reason: BadRequestReason::EmptyBody
        }
    );
}

#[test]
fn chain_growth() {
    // sequentially extending with each call's parent equal to the previous
    // call's returned id always succeeds
    let client_id = Uuid::new_v4().as_u128();
    let mut storage = InMemoryStorage::new();
    let mut parent = NO_VERSION_ID;
    for k in 0..5u8 {
        match extend(&mut storage, client_id, parent, &[k]) {
            ApiOutcome::Accepted { version_id } => {
                assert_ne!(version_id, NO_VERSION_ID);
                assert_ne!(version_id, parent);
                parent = version_id;
            }
            other => panic!("{:?}", other),
        }
    }
}

#[test]
fn conflict_correctness_and_stale_retry() {
    // a second call with the already-used parent conflicts, naming the first
    // call's result; repeating it keeps naming the same head, and supplying
    // that head succeeds
    let client_id = Uuid::new_v4().as_u128();
    let mut storage = InMemoryStorage::new();
    let v1 = match extend(&mut storage, client_id, NO_VERSION_ID, b"seg1") {
        ApiOutcome::Accepted { version_id } => version_id,
        other => panic!("{:?}", other),
    };
    for _ in 0..3 {
        assert_eq!(
            extend(&mut storage, client_id, NO_VERSION_ID, b"seg2"),
            ApiOutcome::Conflict {
                expected_parent_version_id: v1
            }
        );
    }
    match extend(&mut storage, client_id, v1, b"seg2") {
        ApiOutcome::Accepted { .. } => {}
        other => panic!("{:?}", other),
    }
}

#[test]
fn exclusivity_same_stale_parent() {
    // of several calls all presenting the same parent, exactly one is
    // accepted, and the final head is the winner's id
    let client_id = Uuid::new_v4().as_u128();
    let mut storage = InMemoryStorage::new();
    let mut accepted = 0;
    let mut winner = NO_VERSION_ID;
    for k in 0..4u8 {
        match extend(&mut storage, client_id, NO_VERSION_ID, &[k]) {
            ApiOutcome::Accepted { version_id } => {
                accepted += 1;
                winner = version_id;
            }
            ApiOutcome::Conflict {
                expected_parent_version_id,
            } => {
                assert_eq!(expected_parent_version_id, winner);
            }
            other => panic!("{:?}", other),
        }
    }
    assert_eq!(accepted, 1);
    let txn = storage.txn();
    let client = txn.get_client(client_id).unwrap();
    assert_eq!(client.latest_version_id, winner);
}

#[test]
fn cross_client_isolation() {
    // activity on one client never makes another client's call conflict
    let c1 = Uuid::new_v4().as_u128();
    let c2 = Uuid::new_v4().as_u128();
    let mut storage = InMemoryStorage::new();
    let mut p1 = NO_VERSION_ID;
    let mut p2 = NO_VERSION_ID;
    for k in 0..3u8 {
        match extend(&mut storage, c1, p1, &[k]) {
            ApiOutcome::Accepted { version_id } => p1 = version_id,
            other => panic!("{:?}", other),
        }
        match extend(&mut storage, c2, p2, &[k]) {
            ApiOutcome::Accepted { version_id } => p2 = version_id,
            other => panic!("{:?}", other),
        }
    }
    assert_ne!(p1, p2);
}

#[test]
fn size_boundary() {
    // a body of exactly the maximum size is accepted; one byte over is
    // rejected; the content type is checked before the body's length
    let client_id = Uuid::new_v4().as_u128();
    let mut storage = InMemoryStorage::new();
    let body = vec![0u8; MAX_SIZE];
    match extend(&mut storage, client_id, NO_VERSION_ID, &body) {
        ApiOutcome::Accepted { .. } => {}
        other => panic!("{:?}", other),
    }

    let big = vec![0u8; MAX_SIZE + 1];
    assert_eq!(
        service(
            &mut storage,
            client_id,
            NO_VERSION_ID,
            history_segment_content_type(),
            big,
        ),
        ApiOutcome::BadRequest {
            reason: BadRequestReason::BodyTooLarge
        }
    );

    let big = vec![0u8; MAX_SIZE + 1];
    assert_eq!(
        service(&mut storage, client_id, NO_VERSION_ID, "not/correct", big),
        ApiOutcome::BadRequest {
            reason: BadRequestReason::WrongContentType
        }
    );
}

#[test]
fn chunk_accounting() {
    assert_eq!(accept_chunk(0, MAX_SIZE), Some(MAX_SIZE));
    assert_eq!(accept_chunk(MAX_SIZE, 0), Some(MAX_SIZE));
    assert_eq!(accept_chunk(MAX_SIZE, 1), None);
    assert_eq!(accept_chunk(100, 200), Some(300));
}

#[test]
fn scenario_first_sync_then_conflict() {
    // a client id unseen by the server: extending from NO_VERSION_ID is
    // accepted twice in sequence; re-extending from the first version
    // conflicts, naming the second
    let c1 = Uuid::new_v4().as_u128();
    let mut storage = InMemoryStorage::new();
    let v1 = match extend(&mut storage, c1, NO_VERSION_ID, b"seg1") {
        ApiOutcome::Accepted { version_id } => version_id,
        other => panic!("{:?}", other),
    };
    let v2 = match extend(&mut storage, c1, v1, b"seg2") {
        ApiOutcome::Accepted { version_id } => version_id,
        other => panic!("{:?}", other),
    };
    assert_eq!(
        extend(&mut storage, c1, v1, b"seg3"),
        ApiOutcome::Conflict {
            expected_parent_version_id: v2
        }
    );
}

#[test]
fn new_client_already_exists() {
    let client_id = Uuid::new_v4().as_u128();
    let mut storage = InMemoryStorage::new();
    let mut txn = storage.txn();
    assert_eq!(txn.new_client(client_id, NO_VERSION_ID), Ok(()));
    assert_eq!(
        txn.new_client(client_id, NO_VERSION_ID),
        Err(StorageError::AlreadyExists)
    );
    // the error left the transaction untouched: committing it still creates
    // the client
    txn.commit(&mut storage);
    let txn = storage.txn();
    assert_eq!(
        txn.get_client(client_id).unwrap().latest_version_id,
        NO_VERSION_ID
    );
}

#[test]
fn discarded_txn_changes_nothing() {
    let client_id = Uuid::new_v4().as_u128();
    let mut storage = InMemoryStorage::new();
    {
        let mut txn = storage.txn();
        txn.new_client(client_id, NO_VERSION_ID).unwrap();
        // dropped without commit
    }
    let txn = storage.txn();
    assert!(txn.get_client(client_id).is_none());
}

#[test]
fn add_version_accepts_and_commits() {
    // the algorithm run directly against a transaction: a match appends and
    // commits, a mismatch discards
    let client_id = Uuid::new_v4().as_u128();
    let mut storage = InMemoryStorage::new();
    {
        let mut txn = storage.txn();
        txn.new_client(client_id, NO_VERSION_ID).unwrap();
        txn.commit(&mut storage);
    }
    let txn = storage.txn();
    let client = txn.get_client(client_id).unwrap();
    let v1 = match add_version(
        txn,
        &mut storage,
        client_id,
        client,
        NO_VERSION_ID,
        b"seg1".to_vec(),
    ) {
        AddVersionResult::Accepted(v) => v,
        other => panic!("{:?}", other),
    };
    assert_ne!(v1, NO_VERSION_ID);

    let txn = storage.txn();
    let client = txn.get_client(client_id).unwrap();
    assert_eq!(client.latest_version_id, v1);
    let result = add_version(
        txn,
        &mut storage,
        client_id,
        client,
        NO_VERSION_ID,
        b"seg2".to_vec(),
    );
    assert_eq!(result, AddVersionResult::Conflict(v1));
}
