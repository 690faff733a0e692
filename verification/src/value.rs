//! The decoded reply model and the coercions that turn a reply into a typed
//! result.

use vstd::prelude::*;
use vstd::slice::slice_to_vec;

verus! {

/// The mathematical model of a reply.
///
/// `Nil` is a case of its own: it is neither the empty string nor the empty
/// array.
pub enum Reply {
    /// The status reply `OK`.
    Okay,
    /// The reply that says "no value".
    Nil,
    /// A sequence of replies, possibly empty.
    Array(Seq<Reply>),
    /// A number.
    Integer(int),
    /// A string of bytes, from a status line or from a bulk string.
    String(Seq<u8>),
}

impl Reply {
    /// Whether this is an array of strings only.
    pub open spec fn is_string_array(self) -> bool {
        self matches Reply::Array(items) && forall|i: int|
            0 <= i < items.len() ==> #[trigger] items[i] is String
    }

    /// The bytes of a string, and the empty sequence for any other reply.
    pub open spec fn bytes(self) -> Seq<u8> {
        match self {
            Reply::String(bytes) => bytes,
            _ => Seq::empty(),
        }
    }

    /// The bytes of a string, and `None` for any other reply.
    pub open spec fn optional_bytes(self) -> Option<Seq<u8>> {
        match self {
            Reply::String(bytes) => Some(bytes),
            _ => None,
        }
    }

    /// The items of an array, and the empty sequence for any other reply.
    pub open spec fn items(self) -> Seq<Reply> {
        match self {
            Reply::Array(items) => items,
            _ => Seq::empty(),
        }
    }

    /// Whether this reply can be written on the wire and read back: every
    /// number fits in 64 bits with a sign, and so does every length.
    pub open spec fn representable(self) -> bool
        decreases self,
    {
        match self {
            Reply::Okay => true,
            Reply::Nil => true,
            Reply::Integer(n) => i64::MIN <= n <= i64::MAX,
            Reply::String(bytes) => bytes.len() <= i64::MAX,
            Reply::Array(items) => items.len() <= i64::MAX && forall|i: int|
                0 <= i < items.len() ==> (#[trigger] items[i]).representable(),
        }
    }
}

/// A decoded reply.
#[derive(Debug, PartialEq, Eq)]
pub enum Value {
    /// The status reply `OK`.
    Okay,
    /// The reply that says "no value": an absent bulk string or an absent
    /// array.
    Nil,
    /// A sequence of replies, possibly empty.
    Array(Vec<Value>),
    /// A number.
    Integer(i64),
    /// A string of bytes, from a status line or from a bulk string.
    String(Vec<u8>),
}

impl View for Value {
    type V = Reply;

    open spec fn view(&self) -> Reply
        decreases self,
    {
        match self {
            Value::Okay => Reply::Okay,
            Value::Nil => Reply::Nil,
            Value::Array(items) => Reply::Array(
                Seq::new(
                    items@.len(),
                    |i: int|
                        if 0 <= i < items@.len() {
                            items@[i]@
                        } else {
                            Reply::Nil
                        },
                ),
            ),
            Value::Integer(n) => Reply::Integer(*n as int),
            Value::String(bytes) => Reply::String(bytes@),
        }
    }
}

/// The models of a sequence of values, one for one.
pub open spec fn replies(values: Seq<Value>) -> Seq<Reply> {
    Seq::new(values.len(), |i: int| values[i]@)
}

/// The sequences of bytes that a vector of byte strings holds, one for one.
pub open spec fn byte_strings(items: Seq<Vec<u8>>) -> Seq<Seq<u8>> {
    Seq::new(items.len(), |i: int| items[i]@)
}

/// The bytes of each string of `items`, one for one.
pub open spec fn strings_of(items: Seq<Reply>) -> Seq<Seq<u8>> {
    Seq::new(items.len(), |i: int| items[i].bytes())
}

/// The bytes of each string of `items`, and `None` for each other item.
pub open spec fn optional_strings_of(items: Seq<Reply>) -> Seq<Option<Seq<u8>>> {
    Seq::new(items.len(), |i: int| items[i].optional_bytes())
}

/// What a vector of optional byte strings holds, one for one.
pub open spec fn optional_byte_strings(items: Seq<Option<Vec<u8>>>) -> Seq<Option<Seq<u8>>> {
    Seq::new(
        items.len(),
        |i: int|
            match items[i] {
                Some(bytes) => Some(bytes@),
                None => None,
            },
    )
}

/// The text that the `Debug` formatting of a value gives, as a function of the
/// reply that the value stands for.
pub uninterp spec fn debug_rendering(reply: Reply) -> Seq<char>;

/// `format!` with `{:?}`, which writes a value out through the `Debug` impl
/// that `derive` made for [`Value`]: the variant's name and its fields. The
/// contract only names that text; nothing is claimed of its characters.
#[verifier::external_body]
pub(crate) fn debug_text(value: &Value) -> (text: String)
    ensures
        text@ == debug_rendering(value@),
{
    format!("{:?}", value)
}

/// The model of an array is the array of its items' models.
pub proof fn lemma_array_view(items: Vec<Value>)
    ensures
        Value::Array(items)@ == Reply::Array(replies(items@)),
{
    assert(Value::Array(items)@.items() =~= replies(items@));
}

impl Clone for Value {
    /// A copy of this value: it stands for the same reply.
    #[verifier::loop_isolation(false)]
    fn clone(&self) -> (copy: Value)
        ensures
            copy@ == self@,
        decreases self,
    {
        match self {
            Value::Okay => Value::Okay,
            Value::Nil => Value::Nil,
            Value::Integer(n) => Value::Integer(*n),
            Value::String(bytes) => Value::String(slice_to_vec(bytes.as_slice())),
            Value::Array(items) => {
                let mut copies: Vec<Value> = Vec::new();
                let mut i: usize = 0;
                while i < items.len()
                    invariant
                        i <= items.len(),
                        copies@.len() == i,
                        forall|j: int| 0 <= j < i ==> (#[trigger] copies@[j])@ == items@[j]@,
                    decreases items.len() - i,
                {
                    let copy = items[i].clone();
                    copies.push(copy);
                    i += 1;
                }
                proof {
                    lemma_array_view(*items);
                    lemma_array_view(copies);
                    assert(replies(copies@) =~= replies(items@));
                }
                Value::Array(copies)
            },
        }
    }
}

impl Value {
    /// The number of an integer reply.
    pub fn unwrap_integer(self) -> (n: i64)
        requires
            self is Integer,
        ensures
            self@ == Reply::Integer(n as int),
    {
        match self {
            Value::Integer(n) => n,
            _ => unreached(),
        }
    }

    /// The items of an array reply, in order.
    pub fn unwrap_array(self) -> (items: Vec<Value>)
        requires
            self is Array,
        ensures
            self@ == Reply::Array(replies(items@)),
    {
        match self {
            Value::Array(items) => {
                proof {
                    lemma_array_view(items);
                }
                items
            },
            _ => unreached(),
        }
    }

    /// The bytes of a string reply.
    pub fn unwrap_string(self) -> (bytes: Vec<u8>)
        requires
            self is String,
        ensures
            self@ == Reply::String(bytes@),
    {
        match self {
            Value::String(bytes) => bytes,
            _ => unreached(),
        }
    }

    /// An integer reply read as a truth value: zero is `false`, any other
    /// number is `true`.
    pub fn unwrap_bool(self) -> (b: bool)
        requires
            self is Integer,
        ensures
            b == (self@ != Reply::Integer(0)),
    {
        match self {
            Value::Integer(n) => n != 0,
            _ => unreached(),
        }
    }

    /// The bytes of each item of an array of strings, in order.
    pub fn unwrap_string_array(self) -> (strings: Vec<Vec<u8>>)
        requires
            self@.is_string_array(),
        ensures
            byte_strings(strings@) == strings_of(self@.items()),
    {
        let items = self.unwrap_array();
        let ghost all = items@;
        let mut items = items;
        let mut reversed: Vec<Vec<u8>> = Vec::new();
        proof {
            assert forall|i: int| 0 <= i < all.len() implies (#[trigger] all[i]) is String by {
                assert(replies(all)[i] is String);
            }
        }
        while items.len() > 0
            invariant
                items@.len() + reversed@.len() == all.len(),
                items@ == all.take(items@.len() as int),
                forall|i: int| 0 <= i < all.len() ==> (#[trigger] all[i]) is String,
                forall|j: int|
                    0 <= j < reversed@.len() ==> all[all.len() - 1 - j]@ == Reply::String(
                        (#[trigger] reversed@[j])@,
                    ),
            decreases items@.len(),
        {
            let item = items.pop().unwrap();
            reversed.push(item.unwrap_string());
        }
        let mut strings: Vec<Vec<u8>> = Vec::new();
        while reversed.len() > 0
            invariant
                reversed@.len() + strings@.len() == all.len(),
                forall|j: int|
                    0 <= j < reversed@.len() ==> all[all.len() - 1 - j]@ == Reply::String(
                        (#[trigger] reversed@[j])@,
                    ),
                forall|i: int|
                    0 <= i < strings@.len() ==> all[i]@ == Reply::String((#[trigger] strings@[i])@),
            decreases reversed@.len(),
        {
            let bytes = reversed.pop().unwrap();
            strings.push(bytes);
        }
        strings
    }

    /// The number of an integer reply, and `None` for any other reply.
    pub fn optional_integer(self) -> (n: Option<i64>)
        ensures
            match self@ {
                Reply::Integer(i) => n == Some(i as i64),
                _ => n is None,
            },
    {
        match self {
            Value::Integer(n) => Some(n),
            _ => None,
        }
    }

    /// The items of an array reply, and `None` for any other reply.
    pub fn optional_array(self) -> (items: Option<Vec<Value>>)
        ensures
            match items {
                Some(items) => self@ == Reply::Array(replies(items@)),
                None => !(self is Array),
            },
    {
        match self {
            Value::Array(items) => {
                proof {
                    lemma_array_view(items);
                }
                Some(items)
            },
            _ => None,
        }
    }

    /// The bytes of a string reply, and `None` for any other reply: `Nil`
    /// reads as "absent".
    pub fn optional_string(self) -> (bytes: Option<Vec<u8>>)
        ensures
            match bytes {
                Some(bytes) => self@ == Reply::String(bytes@),
                None => !(self is String),
            },
    {
        match self {
            Value::String(bytes) => Some(bytes),
            _ => None,
        }
    }

    /// An integer reply read as a truth value, and `None` for any other
    /// reply.
    pub fn optional_bool(self) -> (b: Option<bool>)
        ensures
            match self@ {
                Reply::Integer(i) => b == Some(i != 0),
                _ => b is None,
            },
    {
        match self {
            Value::Integer(n) => Some(n != 0),
            _ => None,
        }
    }
}

} // verus!
