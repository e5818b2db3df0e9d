//! The messages of the chat protocol and the JSON objects they travel in.

use vstd::prelude::*;
use vstd::utf8::*;
use crate::cipher::{EncryptionMethod, encrypt, try_decrypt, encrypted_bytes, decrypted_bytes, lemma_decrypt_undoes_encrypt};

verus! {

/// A value of a received JSON object, as the protocol reads it.
#[derive(Debug)]
pub enum JsonField {
    /// `null`, or no value under the key.
    Null,
    /// A string.
    Str(String),
    /// Any other value (number, boolean, array, object), by its text.
    Other(String),
}

/// What the protocol sees of a JSON value.
pub enum FieldView {
    Null,
    Str(Seq<char>),
    Other(Seq<char>),
}

impl View for JsonField {
    type V = FieldView;

    open spec fn view(&self) -> FieldView {
        match self {
            JsonField::Null => FieldView::Null,
            JsonField::Str(s) => FieldView::Str(s@),
            JsonField::Other(s) => FieldView::Other(s@),
        }
    }
}

/// The text of a value as json's `to_string` gives it.
pub open spec fn field_text(f: FieldView) -> Seq<char> {
    match f {
        FieldView::Null => "null"@,
        FieldView::Str(s) => s,
        FieldView::Other(s) => s,
    }
}

/// The value under `key` in the entries, `Null` where there is none.
pub open spec fn lookup(entries: Seq<(Seq<char>, FieldView)>, key: Seq<char>) -> FieldView
    decreases entries.len(),
{
    if entries.len() == 0 {
        FieldView::Null
    } else if entries[0].0 == key {
        entries[0].1
    } else {
        lookup(entries.drop_first(), key)
    }
}

fn text_of(f: &JsonField) -> (text: String)
    ensures
        text@ == field_text(f@),
{
    match f {
        JsonField::Null => {
            proof {
                reveal_strlit("null");
            }
            "null".to_owned()
        },
        JsonField::Str(s) => s.clone(),
        JsonField::Other(s) => s.clone(),
    }
}

/// The top-level entries of a received JSON object, in the order json keeps
/// them; a received value that is not an object has none.
pub struct JsonObject {
    entries: Vec<(String, JsonField)>,
}

/// The index of the first entry under `key`, or -1.
pub open spec fn key_index(entries: Seq<(Seq<char>, FieldView)>, key: Seq<char>) -> int
    decreases entries.len(),
{
    if entries.len() == 0 {
        -1
    } else if entries[0].0 == key {
        0
    } else if key_index(entries.drop_first(), key) == -1 {
        -1
    } else {
        key_index(entries.drop_first(), key) + 1
    }
}

/// The entries after json's `insert`: the value under `key` is replaced where the
/// key is present, and the pair is appended where it is not.
pub open spec fn inserted(
    entries: Seq<(Seq<char>, FieldView)>,
    key: Seq<char>,
    value: FieldView,
) -> Seq<(Seq<char>, FieldView)> {
    if key_index(entries, key) >= 0 {
        entries.update(key_index(entries, key), (key, value))
    } else {
        entries.push((key, value))
    }
}

impl View for JsonObject {
    type V = Seq<(Seq<char>, FieldView)>;

    closed spec fn view(&self) -> Seq<(Seq<char>, FieldView)> {
        self.entries@.map_values(|e: (String, JsonField)| (e.0@, e.1@))
    }
}

proof fn lemma_key_index(entries: Seq<(Seq<char>, FieldView)>, key: Seq<char>)
    ensures
        -1 <= key_index(entries, key) < entries.len(),
        key_index(entries, key) >= 0 ==> entries[key_index(entries, key)].0 == key,
        key_index(entries, key) >= 0 ==> lookup(entries, key) == entries[key_index(entries, key)].1,
        key_index(entries, key) >= 0 ==> forall|j: int| 0 <= j < key_index(entries, key) ==> entries[j].0 != key,
        key_index(entries, key) == -1 ==> forall|j: int| 0 <= j < entries.len() ==> entries[j].0 != key,
        key_index(entries, key) == -1 ==> lookup(entries, key) == FieldView::Null,
    decreases entries.len(),
{
    if entries.len() > 0 && entries[0].0 != key {
        let rest = entries.drop_first();
        lemma_key_index(rest, key);
        assert forall|j: int| 1 <= j < entries.len() implies entries[j] == rest[j - 1] by {}
    }
}

impl JsonObject {
    /// An object with no entries.
    pub fn new() -> (obj: JsonObject)
        ensures
            obj@ == Seq::<(Seq<char>, FieldView)>::empty(),
    {
        let obj = JsonObject { entries: Vec::new() };
        assert(obj@ =~= Seq::<(Seq<char>, FieldView)>::empty());
        obj
    }

    /// Puts `value` under `key`, as json's `Object::insert` does.
    pub fn insert(&mut self, key: &str, value: JsonField)
        ensures
            final(self)@ == inserted(old(self)@, key@, value@),
    {
        let owned_key = key.to_owned();
        let ghost before = self@;
        proof {
            lemma_key_index(before, key@);
        }
        let mut i: usize = 0;
        while i < self.entries.len()
            invariant
                i <= self.entries@.len(),
                owned_key@ == key@,
                self@ == before,
                before == old(self)@,
                forall|j: int| 0 <= j < i ==> before[j].0 != key@,
            decreases self.entries@.len() - i,
        {
            if self.entries[i].0 == owned_key {
                assert(before[i as int].0 == key@);
                assert(key_index(before, key@) == i) by {
                    lemma_key_index(before, key@);
                    if key_index(before, key@) == -1 {
                        assert(before[i as int].0 != key@);
                    } else if key_index(before, key@) < i {
                        assert(before[key_index(before, key@)].0 != key@);
                    } else if key_index(before, key@) > i {
                        assert(before[i as int].0 != key@);
                    }
                }
                self.entries.set(i, (owned_key, value));
                assert(self@ =~= inserted(before, key@, value@));
                return;
            }
            i += 1;
        }
        assert(key_index(before, key@) == -1) by {
            lemma_key_index(before, key@);
            if key_index(before, key@) >= 0 {
                assert(before[key_index(before, key@)].0 == key@);
            }
        }
        self.entries.push((owned_key, value));
        assert(self@ =~= inserted(before, key@, value@));
    }

    fn find(&self, key: &str) -> (i: Option<usize>)
        ensures
            (match i {
                Some(k) => key_index(self@, key@) == k,
                None => key_index(self@, key@) == -1,
            }),
    {
        let owned_key = key.to_owned();
        proof {
            lemma_key_index(self@, key@);
        }
        let mut i: usize = 0;
        while i < self.entries.len()
            invariant
                i <= self.entries@.len(),
                owned_key@ == key@,
                forall|j: int| 0 <= j < i ==> self@[j].0 != key@,
            decreases self.entries@.len() - i,
        {
            if self.entries[i].0 == owned_key {
                assert(self@[i as int].0 == key@);
                proof {
                    lemma_key_index(self@, key@);
                    if key_index(self@, key@) == -1 {
                        assert(self@[i as int].0 != key@);
                    } else if key_index(self@, key@) < i {
                        assert(self@[key_index(self@, key@)].0 != key@);
                    } else if key_index(self@, key@) > i {
                        assert(self@[i as int].0 != key@);
                    }
                }
                return Some(i);
            }
            assert(self@[i as int].0 != key@);
            i += 1;
        }
        proof {
            lemma_key_index(self@, key@);
            if key_index(self@, key@) >= 0 {
                assert(self@[key_index(self@, key@)].0 == key@);
            }
        }
        None
    }

    /// Whether the object is exactly `{key: value}` with `value` a string, which is
    /// what json's `==` against such an object tests.
    pub fn is_single_string(&self, key: &str, value: &str) -> (b: bool)
        ensures
            b == (self@.len() == 1 && self@[0].0 == key@ && self@[0].1 == FieldView::Str(value@)),
    {
        if self.entries.len() != 1 {
            return false;
        }
        let k = key.to_owned();
        let v = value.to_owned();
        assert(self@[0].0 == self.entries@[0].0@);
        assert(self@[0].1 == self.entries@[0].1@);
        if self.entries[0].0 != k {
            return false;
        }
        match &self.entries[0].1 {
            JsonField::Str(s) => *s == v,
            _ => false,
        }
    }

    /// Whether the value under `key` is `null` or missing (json's `is_null`).
    pub fn is_null(&self, key: &str) -> (b: bool)
        ensures
            b == (lookup(self@, key@) is Null),
    {
        proof {
            lemma_key_index(self@, key@);
        }
        match self.find(key) {
            Some(i) => {
                assert(self@[i as int].1 == self.entries@[i as int].1@);
                match &self.entries[i].1 {
                    JsonField::Null => true,
                    _ => false,
                }
            },
            None => true,
        }
    }

    /// The text of the value under `key` (json's `to_string` of `json[key]`).
    pub fn text(&self, key: &str) -> (t: String)
        ensures
            t@ == field_text(lookup(self@, key@)),
    {
        proof {
            lemma_key_index(self@, key@);
        }
        match self.find(key) {
            Some(i) => {
                assert(self@[i as int].1 == self.entries@[i as int].1@);
                text_of(&self.entries[i].1)
            },
            None => {
                proof {
                    reveal_strlit("null");
                }
                "null".to_owned()
            },
        }
    }
}

/// `c` is an ASCII decimal digit.
pub open spec fn is_decimal_digit(c: char) -> bool {
    '0' <= c <= '9'
}

/// The number that a sequence of decimal digits writes.
pub open spec fn decimal_value(s: Seq<char>) -> nat
    decreases s.len(),
{
    if s.len() == 0 {
        0
    } else {
        decimal_value(s.drop_last()) * 10 + ((s.last() as int - '0' as int) as nat)
    }
}

/// What std's `str::parse::<u32>` gives: an optional `+` and then at least one
/// decimal digit, with a value that fits in `u32`.
pub open spec fn parsed_u32(s: Seq<char>) -> Option<u32> {
    let digits = if s.len() > 0 && s[0] == '+' {
        s.drop_first()
    } else {
        s
    };
    if digits.len() > 0 && (forall|i: int| 0 <= i < digits.len() ==> is_decimal_digit(#[trigger] digits[i]))
        && decimal_value(digits) <= u32::MAX {
        Some(decimal_value(digits) as u32)
    } else {
        None
    }
}

/// Calls std's `str::parse::<u32>` (`u32::from_str`). Its documentation: an
/// optional `+` sign followed by decimal digits, with overflow an error; the error
/// is dropped here.
#[verifier::external_body]
pub(crate) fn parse_u32(text: &str) -> (n: Option<u32>)
    ensures
        n == parsed_u32(text@),
{
    text.parse::<u32>().ok()
}

/// The entries that json's `parse` finds in a text, in the order json keeps them
/// (none where the value is not an object), `None` where the text is not JSON.
pub uninterp spec fn json_object_parsing(text: Seq<char>) -> Option<Seq<(Seq<char>, FieldView)>>;

/// Calls json's `parse` and takes the top-level entries of the value: `null` as
/// `Null`, a string as `Str`, any other value as `Other` with its `to_string` text;
/// a value that is not an object has no entries. The parse error is dropped.
#[verifier::external_body]
fn parse_json_object(text: &str) -> (obj: Option<JsonObject>)
    ensures
        (match obj {
            Some(o) => json_object_parsing(text@) == Some(o@),
            None => json_object_parsing(text@) is None,
        }),
{
    match json::parse(text) {
        Ok(json::JsonValue::Object(o)) => Some(JsonObject { entries: o.iter().map(|(k, v)| (k.to_owned(), match v {
            json::JsonValue::Null => JsonField::Null,
            json::JsonValue::Short(s) => JsonField::Str(s.as_str().to_owned()),
            json::JsonValue::String(s) => JsonField::Str(s.clone()),
            _ => JsonField::Other(v.to_string()),
        })).collect() }),
        Ok(_) => Some(JsonObject { entries: Vec::new() }),
        Err(_) => None,
    }
}

/// Reads the text that came from a socket as a JSON object; text that is not JSON
/// gets the chat's parse error.
pub fn read_json_text(text: &str) -> (r: Result<JsonObject, String>)
    ensures
        (match r {
            Ok(o) => json_object_parsing(text@) == Some(o@),
            Err(e) => json_object_parsing(text@) is None && e@ == "Could not parse data into jason"@,
        }),
{
    match parse_json_object(text) {
        Some(o) => Ok(o),
        None => Err("Could not parse data into jason".to_owned()),
    }
}

/// The text that base64's `encode` makes of some bytes.
pub uninterp spec fn base64_encoding(bytes: Seq<u8>) -> Seq<char>;

/// What base64's `decode` makes of a text, `None` where it fails.
pub uninterp spec fn base64_decoding(text: Seq<char>) -> Option<Seq<u8>>;

/// Calls base64's `encode` (the standard alphabet, with padding).
#[verifier::external_body]
fn base64_encode(bytes: &Vec<u8>) -> (text: String)
    ensures
        text@ == base64_encoding(bytes@),
{
    base64::encode(bytes)
}

/// Calls base64's `decode` (the standard alphabet, with padding); its error is
/// dropped. Beyond naming the result, the contract claims the one fact that the
/// crate's source and tests show: decoding what `encode` made gives the bytes back.
#[verifier::external_body]
fn base64_decode(text: &String) -> (decoded: Option<Vec<u8>>)
    ensures
        (match decoded {
            Some(b) => base64_decoding(text@) == Some(b@),
            None => base64_decoding(text@) is None,
        }),
        decoded is None ==> forall|b: Seq<u8>| #[trigger] base64_encoding(b) != text@,
        decoded matches Some(v) ==> forall|b: Seq<u8>| #[trigger] base64_encoding(b) == text@ ==> v@ == b,
{
    base64::decode(text).ok()
}

/// The text that carries a message on the wire: its encrypted bytes in base64.
pub open spec fn sealed_text(msg: Seq<char>, method: EncryptionMethod, secret: u32) -> Seq<char> {
    base64_encoding(encrypted_bytes(msg, method, secret))
}

/// The message that a wire text carries, `None` where it is not base64 or does not
/// decrypt to UTF-8.
pub open spec fn opened_text(text: Seq<char>, method: EncryptionMethod, secret: u32) -> Option<Seq<char>> {
    match base64_decoding(text) {
        Some(b) => if valid_utf8(decrypted_bytes(b, method, secret)) {
            Some(decode_utf8(decrypted_bytes(b, method, secret)))
        } else {
            None
        },
        None => None,
    }
}

/// Encrypts a message and writes the bytes in base64, as it goes on the wire.
pub fn seal_text(msg: &String, method: &EncryptionMethod, secret: &u32) -> (text: String)
    ensures
        text@ == sealed_text(msg@, *method, *secret),
{
    let bytes = encrypt(msg, method, secret);
    base64_encode(&bytes)
}

/// Reads a wire text back into the message: base64 first, then decryption.
/// A text that `seal_text` made with the same method and secret gives its message.
pub fn open_text(text: &String, method: &EncryptionMethod, secret: &u32) -> (msg: Option<String>)
    ensures
        (match msg {
            Some(m) => opened_text(text@, *method, *secret) == Some(m@),
            None => opened_text(text@, *method, *secret) is None,
        }),
        forall|t: Seq<char>| #[trigger] sealed_text(t, *method, *secret) == text@
            ==> (msg matches Some(m) && m@ == t),
{
    let decoded = base64_decode(text);
    proof {
        assert forall|t: Seq<char>| #[trigger] sealed_text(t, *method, *secret) == text@
            implies opened_text(text@, *method, *secret) == Some(t) by {
            assert(base64_encoding(encrypted_bytes(t, *method, *secret)) == text@);
            lemma_decrypt_undoes_encrypt(t, *method, *secret);
        }
    }
    match decoded {
        Some(bytes) => try_decrypt(bytes, method, secret),
        None => None,
    }
}

/// A public number sent under its key: `"a"` from a client, `"b"` from the server.
#[derive(Debug)]
pub struct SendPublicNumberMessage {
    pub key: String,
    pub val: u32,
}

impl SendPublicNumberMessage {
    pub fn new(key: &str, val: u32) -> (m: SendPublicNumberMessage)
        ensures
            m.key@ == key@,
            m.val == val,
    {
        SendPublicNumberMessage { key: key.to_owned(), val: val }
    }
}

/// A chat message: its text and the nickname of its sender.
#[derive(Debug)]
pub struct NormalMessage {
    pub content: String,
    pub sender: String,
}

impl NormalMessage {
    pub fn new(sender: String, content: String) -> (m: NormalMessage)
        ensures
            m.content@ == content@,
            m.sender@ == sender@,
    {
        NormalMessage { content: content, sender: sender }
    }
}

/// The server's public parameters: the prime `p` and the generator `g`.
#[derive(Debug)]
pub struct SendParamsMessage {
    pub p: u32,
    pub g: u32,
}

impl SendParamsMessage {
    pub fn new(p: u32, g: u32) -> (m: SendParamsMessage)
        ensures
            m.p == p,
            m.g == g,
    {
        SendParamsMessage { p: p, g: g }
    }
}

/// A client's request for the parameters: `{"request": "keys"}`.
#[derive(Debug)]
pub struct SendParamReqMessage;

/// A client's choice of cipher.
#[derive(Debug, Clone)]
pub struct SendEncryptionMethodMessage {
    pub method: EncryptionMethod,
}

/// The name under which a cipher travels.
pub open spec fn encryption_name(method: EncryptionMethod) -> Seq<char> {
    match method {
        EncryptionMethod::Plain => "none"@,
        EncryptionMethod::Xor => "xor"@,
        EncryptionMethod::Cezar => "cezar"@,
    }
}

impl SendEncryptionMethodMessage {
    pub fn new(method: EncryptionMethod) -> (m: SendEncryptionMethodMessage)
        ensures
            m.method == method,
    {
        SendEncryptionMethodMessage { method: method }
    }

    /// The value of the message's `"encryption"` entry.
    pub fn method_str(&self) -> (name: String)
        ensures
            name@ == encryption_name(self.method),
    {
        match self.method {
            EncryptionMethod::Plain => {
                proof {
                    reveal_strlit("none");
                }
                "none".to_owned()
            },
            EncryptionMethod::Xor => {
                proof {
                    reveal_strlit("xor");
                }
                "xor".to_owned()
            },
            EncryptionMethod::Cezar => {
                proof {
                    reveal_strlit("cezar");
                }
                "cezar".to_owned()
            },
        }
    }
}

} // verus!
