use traffic_forward::web::forward::{outcome_response, JsonData};

#[test]
fn answers() {
    let ok = outcome_response(Ok(()));
    assert_eq!((ok.code, ok.msg.as_str(), ok.data), (1, "Success", Some(())));
    let err = outcome_response(Err("IP already exists".to_string()));
    assert_eq!((err.code, err.msg.as_str(), err.data), (0, "IP already exists", None));
    let none: JsonData<u8> = JsonData::response(None, None);
    assert_eq!((none.code, none.msg.as_str()), (0, "Fail"));
    let some = JsonData::response(Some("here"), Some(5u8));
    assert_eq!((some.code, some.msg.as_str(), some.data), (1, "here", Some(5)));
    assert_eq!(JsonData::<u8>::fail(None, Some(1)).code, 0);
    assert_eq!(JsonData::<u8>::success(None, None).msg, "Success");
}
