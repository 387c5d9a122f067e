use postcard_rpc_host::{
    build_report, check_totals, find_type, join_outcomes, resolve_endpoint, resolve_topic, HostErr,
    Key, SchemaError, SchemaFragment, SchemaReport, SchemaTotals, TopicDirection, UnableToFindType,
};
use postcard_schema::schema::owned::OwnedNamedType;
use postcard_schema::Schema;

fn ty_u8() -> OwnedNamedType {
    OwnedNamedType::from(<u8 as Schema>::SCHEMA)
}
fn ty_u32() -> OwnedNamedType {
    OwnedNamedType::from(<u32 as Schema>::SCHEMA)
}
fn ty_str() -> OwnedNamedType {
    OwnedNamedType::from(<String as Schema>::SCHEMA)
}
fn ty_bool() -> OwnedNamedType {
    OwnedNamedType::from(<bool as Schema>::SCHEMA)
}

fn key_of(path: &str, ty: &OwnedNamedType) -> Key {
    Key::from_bytes(postcard_schema::key::Key::for_owned_schema_path(path, ty).to_bytes())
}

fn base() -> SchemaReport {
    SchemaReport::with_types(vec![ty_bool()])
}

fn fragments() -> Vec<SchemaFragment> {
    vec![
        SchemaFragment::Type(ty_u8()),
        SchemaFragment::Type(ty_u32()),
        SchemaFragment::Type(ty_str()),
        SchemaFragment::Endpoint {
            path: "ep/a".to_string(),
            request_key: key_of("ep/a", &ty_u8()),
            response_key: key_of("ep/a", &ty_u32()),
        },
        SchemaFragment::Endpoint {
            path: "ep/b".to_string(),
            request_key: key_of("ep/b", &ty_str()),
            response_key: key_of("ep/b", &ty_bool()),
        },
        SchemaFragment::Topic {
            path: "tp/in".to_string(),
            key: key_of("tp/in", &ty_u32()),
            direction: TopicDirection::ToServer,
        },
    ]
}

#[test]
fn schema_discovery_success() {
    let totals = SchemaTotals { endpoints_sent: 2, topics_in_sent: 1, topics_out_sent: 0, errors: 0 };
    let rpt = match build_report::<()>(base(), fragments(), totals) {
        Ok(r) => r,
        Err(e) => panic!("unexpected {:?}", e),
    };
    assert_eq!(rpt.types.len(), 4);
    assert_eq!(rpt.endpoints.len(), 2);
    assert_eq!(rpt.topics_in.len(), 1);
    assert_eq!(rpt.topics_out.len(), 0);
    let ep = &rpt.endpoints[0];
    assert_eq!(ep.path, "ep/a");
    assert_eq!(rpt.types[ep.req_ty], ty_u8());
    assert_eq!(rpt.types[ep.resp_ty], ty_u32());
    assert_eq!(rpt.types[rpt.endpoints[1].resp_ty], ty_bool());
    assert_eq!(rpt.types[rpt.topics_in[0].ty], ty_u32());
}

#[test]
fn schema_discovery_loss() {
    let totals = SchemaTotals { endpoints_sent: 3, topics_in_sent: 1, topics_out_sent: 0, errors: 0 };
    assert!(matches!(build_report::<()>(base(), fragments(), totals), Err(SchemaError::LostData)));
}

#[test]
fn schema_discovery_peer_errors_are_loss() {
    let totals = SchemaTotals { endpoints_sent: 2, topics_in_sent: 1, topics_out_sent: 0, errors: 1 };
    assert!(matches!(build_report::<()>(base(), fragments(), totals), Err(SchemaError::LostData)));
}

#[test]
fn unknown_key_is_invalid_report_data() {
    let mut data = fragments();
    data.push(SchemaFragment::Topic {
        path: "tp/out".to_string(),
        key: key_of("tp/out", &OwnedNamedType::from(<i64 as Schema>::SCHEMA)),
        direction: TopicDirection::ToClient,
    });
    let totals = SchemaTotals { endpoints_sent: 2, topics_in_sent: 1, topics_out_sent: 1, errors: 0 };
    assert!(matches!(build_report::<()>(base(), data, totals), Err(SchemaError::InvalidReportData)));
}

#[test]
fn duplicate_types_are_kept_once() {
    let mut rpt = base();
    assert!(rpt.add_type(ty_u8()));
    assert!(!rpt.add_type(ty_u8()));
    assert!(!rpt.add_type(ty_bool()));
    assert_eq!(rpt.types.len(), 2);
}

#[test]
fn add_topic_and_endpoint_resolve_types() {
    let mut rpt = SchemaReport::with_types(vec![ty_u8(), ty_u32()]);
    assert_eq!(rpt.add_topic_out("t".to_string(), key_of("t", &ty_u32())), Ok(()));
    assert_eq!(rpt.topics_out[0].ty, 1);
    assert_eq!(rpt.add_topic_in("t".to_string(), key_of("u", &ty_u32())), Err(UnableToFindType));
    assert!(rpt.topics_in.is_empty());
    assert_eq!(rpt.add_endpoint("e".to_string(), key_of("e", &ty_u32()), key_of("e", &ty_u8())), Ok(()));
    assert_eq!((rpt.endpoints[0].req_ty, rpt.endpoints[0].resp_ty), (1, 0));
    assert_eq!(rpt.add_endpoint("e".to_string(), key_of("e", &ty_u32()), key_of("x", &ty_u8())), Err(UnableToFindType));
    assert_eq!(rpt.endpoints.len(), 1);
}

#[test]
fn find_type_takes_first_match() {
    let keys = vec![Key::from_bytes([1; 8]), Key::from_bytes([2; 8]), Key::from_bytes([2; 8])];
    assert_eq!(find_type(&keys, &Key::from_bytes([2; 8])), Some(1));
    assert_eq!(find_type(&keys, &Key::from_bytes([3; 8])), None);
    assert_eq!(find_type(&vec![], &Key::from_bytes([3; 8])), None);
}

#[test]
fn resolvers_give_indices() {
    let keys = vec![Key::from_bytes([1; 8]), Key::from_bytes([2; 8])];
    let t = resolve_topic("p".to_string(), Key::from_bytes([2; 8]), &keys).unwrap();
    assert_eq!((t.path.as_str(), t.ty), ("p", 1));
    let e = resolve_endpoint("q".to_string(), Key::from_bytes([2; 8]), Key::from_bytes([1; 8]), &keys).unwrap();
    assert_eq!((e.req_ty, e.resp_ty), (1, 0));
    assert!(resolve_endpoint("q".to_string(), Key::from_bytes([9; 8]), Key::from_bytes([1; 8]), &keys).is_err());
}

#[test]
fn totals_check_every_count() {
    let t = SchemaTotals { endpoints_sent: 2, topics_in_sent: 1, topics_out_sent: 0, errors: 0 };
    assert!(check_totals(&t, 2, 1, 0));
    assert!(!check_totals(&t, 3, 1, 0));
    assert!(!check_totals(&t, 2, 0, 0));
    assert!(!check_totals(&t, 2, 1, 1));
}

#[test]
fn join_prefers_request_error() {
    let t = SchemaTotals { endpoints_sent: 0, topics_in_sent: 0, topics_out_sent: 0, errors: 0 };
    assert!(matches!(join_outcomes::<(), u8>(Ok(t), Ok(3)), Ok((_, 3))));
    assert!(matches!(join_outcomes::<(), u8>(Ok(t), Err(())), Err(SchemaError::TaskError)));
    assert!(matches!(join_outcomes::<(), u8>(Err(HostErr::Closed), Err(())), Err(SchemaError::Comms(HostErr::Closed))));
}

#[test]
fn repeated_type_fragment_is_kept_once() {
    let mut data = fragments();
    data.insert(1, SchemaFragment::Type(ty_u8()));
    data.push(SchemaFragment::Type(ty_bool()));
    let totals = SchemaTotals { endpoints_sent: 2, topics_in_sent: 1, topics_out_sent: 0, errors: 0 };
    let rpt = match build_report::<()>(base(), data, totals) {
        Ok(r) => r,
        Err(e) => panic!("unexpected {:?}", e),
    };
    assert_eq!(rpt.types, vec![ty_bool(), ty_u8(), ty_u32(), ty_str()]);
}

#[test]
fn repeated_endpoint_fragment_is_counted_twice() {
    let mut data = fragments();
    data.push(SchemaFragment::Endpoint {
        path: "ep/a".to_string(),
        request_key: key_of("ep/a", &ty_u8()),
        response_key: key_of("ep/a", &ty_u32()),
    });
    let short = SchemaTotals { endpoints_sent: 2, topics_in_sent: 1, topics_out_sent: 0, errors: 0 };
    assert!(matches!(build_report::<()>(base(), data.clone_fragments(), short), Err(SchemaError::LostData)));
    let full = SchemaTotals { endpoints_sent: 3, topics_in_sent: 1, topics_out_sent: 0, errors: 0 };
    let rpt = build_report::<()>(base(), data, full).ok().expect("ok");
    assert_eq!(rpt.endpoints.len(), 3);
    assert_eq!(rpt.endpoints[2].path, "ep/a");
}

#[test]
fn types_resolve_whatever_their_order_in_the_stream() {
    let mut data = fragments();
    let t = data.remove(0);
    data.push(t);
    let totals = SchemaTotals { endpoints_sent: 2, topics_in_sent: 1, topics_out_sent: 0, errors: 0 };
    assert!(build_report::<()>(base(), data, totals).is_ok());
}

trait CloneFragments {
    fn clone_fragments(&self) -> Vec<SchemaFragment>;
}

impl CloneFragments for Vec<SchemaFragment> {
    fn clone_fragments(&self) -> Vec<SchemaFragment> {
        self.iter()
            .map(|f| match f {
                SchemaFragment::Type(t) => SchemaFragment::Type(t.clone()),
                SchemaFragment::Endpoint { path, request_key, response_key } => SchemaFragment::Endpoint {
                    path: path.clone(),
                    request_key: *request_key,
                    response_key: *response_key,
                },
                SchemaFragment::Topic { path, key, direction } => SchemaFragment::Topic {
                    path: path.clone(),
                    key: *key,
                    direction: *direction,
                },
            })
            .collect()
    }
}
