//! Dogs, users, and the keys under which the resource table keeps them.

use vstd::prelude::*;
use vstd::string::StringExecFns;

use crate::tables::{attribute_view, AttributeValue, AttributeView};

verus! {

/// Information on a dog.
#[derive(Debug)]
pub struct DogInfo {
    /// ID of the dog.
    pub dog_id: String,
    /// Name of the dog.
    pub name: String,
}

/// The key of the items of the friends of a user.
pub open spec fn friend_key_of(user_id: Seq<char>) -> Seq<char> {
    "friend-of#"@ + user_id
}

/// The key of the items of a dog.
pub open spec fn dog_key_of(dog_id: Seq<char>) -> Seq<char> {
    "dog#"@ + dog_id
}

/// Returns the key of the items of the friends of a user.
pub fn friend_key(user_id: &str) -> (key: String)
    ensures
        key@ == friend_key_of(user_id@),
{
    "friend-of#".to_string().concat(user_id)
}

/// Returns the key of the items of a dog.
pub fn dog_key(dog_id: &str) -> (key: String)
    ensures
        key@ == dog_key_of(dog_id@),
{
    "dog#".to_string().concat(dog_id)
}

/// What reading the item of a dog comes to: the name of the dog, or what
/// is wrong with the item. `item` is the attribute `name` of the item, if
/// there is an item.
pub open spec fn dog_name_of(item: Option<Option<AttributeView>>) -> Result<Seq<char>, Seq<char>> {
    match item {
        None => Err("no dog item"@),
        Some(None) => Err("name is missing in dog item"@),
        Some(Some(AttributeView::S(name))) => Ok(name),
        Some(Some(_)) => Err("name is not a string"@),
    }
}

/// Reads the information on a dog from the item of the dog. `item` is the
/// attribute `name` of the item, if there is an item.
pub fn dog_info_from_item(dog_id: String, item: Option<Option<AttributeValue>>) -> (result: Result<
    DogInfo,
    String,
>)
    ensures
        match result {
            Ok(info) => {
                &&& info.dog_id@ == dog_id@
                &&& item is Some
                &&& dog_name_of(Some(attribute_view(item->0))) == Ok::<Seq<char>, Seq<char>>(
                    info.name@,
                )
            },
            Err(message) => if item is Some {
                dog_name_of(Some(attribute_view(item->0))) == Err::<Seq<char>, Seq<char>>(
                    message@,
                )
            } else {
                message@ == "no dog item"@
            },
        },
{
    match item {
        None => Err("no dog item".to_string()),
        Some(None) => Err("name is missing in dog item".to_string()),
        Some(Some(AttributeValue::S(name))) => Ok(DogInfo { dog_id, name }),
        Some(Some(_)) => Err("name is not a string".to_string()),
    }
}

} // verus!
