use stringsext::finding::Precision;
use stringsext::finding_collection::FindingCollection;
use stringsext::merge::merge_collections;
use stringsext::mission::Missions;
use stringsext::scanner::ScannerState;

/// Tests scanning with two missions whose collections are then merged.
#[test]
fn test_merger() {
    let inp = "abcdefgÜhijklmn€opÜqrstuvwÜxyz".as_bytes();

    let missions = Missions::new(
        &Some(b"5000".to_vec()),
        &vec![b"ascii".to_vec(), b"utf-8".to_vec()],
        &Some(b"5".to_vec()),
        true,
        &None,
        &None,
        &None,
        &Some(b"30".to_vec()),
    )
    .unwrap();

    let mut ss0 = ScannerState::new(&missions.v[0]);
    let mut ss1 = ScannerState::new(&missions.v[1]);

    let mut resv: Vec<FindingCollection> = Vec::new();
    resv.push(FindingCollection::from(&mut ss0, Some(0), inp, true));
    resv.push(FindingCollection::from(&mut ss1, Some(0), inp, true));

    assert_eq!(resv.len(), 2);
    assert_eq!(resv[0].v.len(), 3);
    assert_eq!(resv[0].v[0].s.as_slice(), b"abcdefg");
    assert_eq!(resv[0].v[1].s.as_slice(), b"hijklmn");
    assert_eq!(resv[0].v[2].s.as_slice(), b"qrstuvw");
    assert_eq!(resv[1].v.len(), 2);
    assert_eq!(resv[1].v[0].s.as_slice(), "abcdefgÜhijklmn".as_bytes());
    assert_eq!(resv[1].v[1].s.as_slice(), "opÜqrstuvwÜxyz".as_bytes());

    // Merge the results.
    // After merging and sorting the order is deterministic.
    let merged = merge_collections(&resv);
    assert_eq!(merged.len(), 5);

    let f = &merged[0];
    assert_eq!(f.s.as_slice(), b"abcdefg");
    assert_eq!(f.position, 5000);
    assert_eq!(f.position_precision, Precision::Exact);
    assert_eq!(f.mission.mission_id, 0);

    let f = &merged[1];
    assert_eq!(f.s.as_slice(), b"hijklmn");
    assert_eq!(f.position, 5000);
    assert_eq!(f.position_precision, Precision::After);
    assert_eq!(f.mission.mission_id, 0);

    let f = &merged[2];
    assert_eq!(f.s.as_slice(), b"qrstuvw");
    assert_eq!(f.position, 5000);
    assert_eq!(f.position_precision, Precision::After);
    assert_eq!(f.mission.mission_id, 0);

    let f = &merged[3];
    assert_eq!(f.s.as_slice(), "abcdefgÜhijklmn".as_bytes());
    assert_eq!(f.position, 5000);
    assert_eq!(f.position_precision, Precision::Exact);
    assert_eq!(f.mission.mission_id, 1);

    let f = &merged[4];
    assert_eq!(f.s.as_slice(), "opÜqrstuvwÜxyz".as_bytes());
    assert_eq!(f.position, 5000);
    assert_eq!(f.position_precision, Precision::After);
    assert_eq!(f.mission.mission_id, 1);
}
