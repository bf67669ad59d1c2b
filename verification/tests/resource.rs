use map_api::resource::{dog_info_from_item, dog_key, friend_key};
use map_api::tables::AttributeValue;

#[test]
fn test_resource_keys() {
    assert_eq!(friend_key("user_1"), "friend-of#user_1");
    assert_eq!(friend_key(""), "friend-of#");
    assert_eq!(dog_key("dog_1"), "dog#dog_1");
    assert_eq!(dog_key("犬"), "dog#犬");
}

#[test]
fn test_dog_info_from_item() {
    let info = dog_info_from_item(
        "dog_1".to_string(),
        Some(Some(AttributeValue::S("Pochi".to_string()))),
    )
    .unwrap();
    assert_eq!(info.dog_id, "dog_1");
    assert_eq!(info.name, "Pochi");
    assert_eq!(dog_info_from_item("dog_1".to_string(), None).unwrap_err(), "no dog item");
    assert_eq!(
        dog_info_from_item("dog_1".to_string(), Some(None)).unwrap_err(),
        "name is missing in dog item",
    );
    assert_eq!(
        dog_info_from_item("dog_1".to_string(), Some(Some(AttributeValue::N("1".to_string()))))
            .unwrap_err(),
        "name is not a string",
    );
    assert_eq!(
        dog_info_from_item("dog_1".to_string(), Some(Some(AttributeValue::Other))).unwrap_err(),
        "name is not a string",
    );
}
