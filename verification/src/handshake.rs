//! The login: the greeting a server opens with, the response a client
//! answers it with, and the native password that goes in the response.
//! Written and read on both sides, because the far-end [`crate::Session`]
//! speaks the server's half.
//!
//! The greeting is `HandshakeV10`: a version, a connection id, twenty
//! bytes of nonce in two parts, and the capabilities and plugin the server
//! offers. The response is `HandshakeResponse41`, the shape every client
//! since 4.1 sends: the capabilities the client takes up, the user, the
//! password scrambled, the database and the plugin name. This crate takes
//! up four capabilities - protocol 4.1, the secure connection that gives
//! the password a length byte, plugin authentication so both sides can
//! name `mysql_native_password`, and connecting straight to the database -
//! and no more: `CLIENT_DEPRECATE_EOF` is left off so a result set is
//! bounded by the EOF packets `result.rs` reads.
//!
//! `mysql_native_password` is `SHA1(password) XOR SHA1(nonce +
//! SHA1(SHA1(password)))`: the server holds `SHA1(SHA1(password))` and
//! recovers `SHA1(password)` from the response to check it, and a
//! listener on the wire gets neither. `caching_sha2_password`, the default
//! since 8.0, is not implemented; an account that uses it is told so, and
//! the server can be asked for `mysql_native_password` on that account.

use crate::error::{agrees, lasting, Fault};
use crate::error::{protocol_error, TransportError};
use crate::sha1::{digest_length, digest_of, sha1, DIGEST_LENGTH};
use crate::text::{decimal_text, no_nul, push_decimal};
use crate::wire::{append, append_le, cstring, Cursor};
use crate::wire::{
    byte_ranges, byte_read_back, bytes_read_back, cstring_read_back, ended_string, int32_read_back,
    le_bytes, le_bytes_length, le_value, le_value_bound, le_value_of, le_value_of_le_bytes,
    read_byte, read_bytes, read_cstring, read_int32, read_lenenc, Field,
};
use vstd::prelude::*;
use vstd::slice::{slice_subrange, slice_to_vec};
use vstd::string::StringExecFns;
use vstd::utf8::encode_utf8;

verus! {

/// The version byte a greeting opens with.
pub const PROTOCOL_VERSION: u8 = 10;

/// The plugin this crate speaks.
pub const NATIVE_PASSWORD: &'static str = "mysql_native_password";

/// A nonce is twenty bytes: eight in the greeting's first part, twelve in
/// its second.
pub const NONCE_LENGTH: usize = 20;

/// Connect straight to a database.
pub const CLIENT_CONNECT_WITH_DB: u32 = 0x0000_0008;

/// The 4.1 shapes of the response and of every result.
pub const CLIENT_PROTOCOL_41: u32 = 0x0000_0200;

/// The password behind a length byte rather than a NUL.
pub const CLIENT_SECURE_CONNECTION: u32 = 0x0000_8000;

/// Both sides name the plugin.
pub const CLIENT_PLUGIN_AUTH: u32 = 0x0008_0000;

/// The password behind a length-encoded length; read, never sent.
pub const CLIENT_PLUGIN_AUTH_LENENC_CLIENT_DATA: u32 = 0x0020_0000;

/// What this crate takes up.
pub const CAPABILITIES: u32 = CLIENT_PROTOCOL_41 | CLIENT_SECURE_CONNECTION | CLIENT_PLUGIN_AUTH
    | CLIENT_CONNECT_WITH_DB;

/// utf8mb4, general collation.
pub const UTF8MB4: u8 = 45;

/// Who logs in, and with what.
#[derive(Clone, Debug, PartialEq, Eq)]
pub struct Login {
    pub user: String,
    /// Empty where the account has none.
    pub password: String,
}

impl Login {
    /// `user` with `password`.
    #[must_use]
    pub fn new(user: &str, password: &str) -> (login: Self)
        ensures
            login.user@ == user@,
            login.password@ == password@,
    {
        Login { user: user.to_owned(), password: password.to_owned() }
    }
}

/// What a server opens with.
#[derive(Clone, Debug, PartialEq, Eq)]
pub struct HandshakeV10 {
    pub server_version: String,
    pub connection_id: u32,
    pub nonce: Vec<u8>,
    pub capabilities: u32,
    pub plugin: String,
}

/// A greeting as what its fields hold.
pub struct Greeting {
    pub server_version: Seq<char>,
    pub connection_id: u32,
    pub nonce: Seq<u8>,
    pub capabilities: u32,
    pub plugin: Seq<char>,
}

impl View for HandshakeV10 {
    type V = Greeting;

    open spec fn view(&self) -> Greeting {
        Greeting {
            server_version: self.server_version@,
            connection_id: self.connection_id,
            nonce: self.nonce@,
            capabilities: self.capabilities,
            plugin: self.plugin@,
        }
    }
}

/// What a client answers.
#[derive(Clone, Debug, PartialEq, Eq)]
pub struct HandshakeResponse41 {
    pub capabilities: u32,
    pub user: String,
    /// The password scrambled, or empty where there is none.
    pub auth_response: Vec<u8>,
    pub database: String,
    pub plugin: String,
}

/// A response as what its fields hold.
pub struct Response {
    pub capabilities: u32,
    pub user: Seq<char>,
    pub auth_response: Seq<u8>,
    pub database: Seq<char>,
    pub plugin: Seq<char>,
}

impl View for HandshakeResponse41 {
    type V = Response;

    open spec fn view(&self) -> Response {
        Response {
            capabilities: self.capabilities,
            user: self.user@,
            auth_response: self.auth_response@,
            database: self.database@,
            plugin: self.plugin@,
        }
    }
}

// The native password.

/// Two digests, byte by byte, exclusive-or.
pub open spec fn xor(left: Seq<u8>, right: Seq<u8>) -> Seq<u8> {
    Seq::new(left.len(), |i: int| left[i] ^ right[i])
}

/// What a server holds of a password: the digest of its digest.
pub open spec fn stored(password: Seq<char>) -> Seq<u8> {
    digest_of(digest_of(encode_utf8(password)))
}

/// A password scrambled with a nonce; empty for an empty password.
pub open spec fn scrambled(password: Seq<char>, nonce: Seq<u8>) -> Seq<u8> {
    if password.len() == 0 {
        seq![]
    } else {
        xor(digest_of(encode_utf8(password)), digest_of(nonce + stored(password)))
    }
}

/// A response that proves a password: the password scrambled with the nonce.
pub open spec fn verifies(password: Seq<char>, nonce: Seq<u8>, response: Seq<u8>) -> bool {
    response == scrambled(password, nonce)
}

/// `password` scrambled with `nonce` the native way; empty for an empty
/// password, which is what the server expects of an account without one.
#[must_use]
pub fn scramble(password: &str, nonce: &[u8]) -> (scrambled_password: Vec<u8>)
    ensures
        scrambled_password@ == scrambled(password@, nonce@),
{
    let mut out: Vec<u8> = Vec::new();
    if password.is_empty() {
        return out;
    }
    let first: [u8; DIGEST_LENGTH] = sha1(password.as_bytes());
    let second: [u8; DIGEST_LENGTH] = sha1(first.as_slice());
    let mut salted: Vec<u8> = Vec::new();
    append(&mut salted, nonce);
    append(&mut salted, second.as_slice());
    assert(salted@ =~= nonce@ + stored(password@));
    let third: [u8; DIGEST_LENGTH] = sha1(salted.as_slice());
    let mut at: usize = 0;
    while at < DIGEST_LENGTH
        invariant
            at <= DIGEST_LENGTH,
            out@ == xor(first@, third@).take(at as int),
        decreases DIGEST_LENGTH - at,
    {
        out.push(first[at] ^ third[at]);
        at += 1;
        assert(out@ =~= xor(first@, third@).take(at as int));
    }
    assert(out@ =~= xor(first@, third@));
    out
}

/// True when `left` and `right` hold the same bytes.
fn same_bytes(left: &[u8], right: &[u8]) -> (same: bool)
    ensures
        same == (left@ == right@),
{
    if left.len() != right.len() {
        return false;
    }
    let mut at: usize = 0;
    while at < left.len()
        invariant
            at <= left@.len(),
            left@.len() == right@.len(),
            forall|i: int| 0 <= i < at ==> left@[i] == right@[i],
        decreases left@.len() - at,
    {
        if left[at] != right[at] {
            return false;
        }
        at += 1;
    }
    assert(left@ =~= right@);
    true
}

/// True when `response` is `password` scrambled with `nonce`.
#[must_use]
pub fn verify(password: &str, nonce: &[u8], response: &[u8]) -> (verified: bool)
    ensures
        verified == verifies(password@, nonce@, response@),
{
    same_bytes(scramble(password, nonce).as_slice(), response)
}

// The greeting.

/// True where `capabilities` take up `capability`.
pub open spec fn takes_up(capabilities: u32, capability: u32) -> bool {
    capabilities & capability != 0
}

/// A nonce made twenty bytes: cut where it is longer, filled with `x` where
/// it is shorter.
pub open spec fn filled_nonce(nonce: Seq<u8>) -> Seq<u8> {
    Seq::new(
        NONCE_LENGTH as nat,
        |i: int|
            if i < nonce.len() {
                nonce[i]
            } else {
                120u8
            },
    )
}

/// `count` zero bytes.
pub open spec fn zeros(count: nat) -> Seq<u8> {
    Seq::new(count, |i: int| 0u8)
}

/// The fields of fixed width in the middle of a greeting: the id, the first
/// part of the nonce, the lower half of the capabilities, the collation, the
/// status, the upper half, the length of the nonce with its NUL, and ten
/// bytes that are not used.
pub open spec fn fixed_fields(greeting: Greeting) -> Seq<u8> {
    le_bytes(greeting.connection_id as nat, 4) + filled_nonce(greeting.nonce).take(8) + seq![0u8]
        + le_bytes((greeting.capabilities % 0x1_0000) as nat, 2) + seq![UTF8MB4] + le_bytes(2, 2)
        + le_bytes((greeting.capabilities / 0x1_0000) as nat, 2) + seq![
        (NONCE_LENGTH + 1) as u8,
    ] + zeros(10)
}

/// A greeting as a payload.
pub open spec fn greeting_bytes(greeting: Greeting) -> Seq<u8> {
    seq![PROTOCOL_VERSION] + ended_string(greeting.server_version) + fixed_fields(greeting)
        + filled_nonce(greeting.nonce).skip(8) + seq![0u8] + ended_string(greeting.plugin)
}

/// How many bytes the fields of fixed width are.
pub open spec fn fixed_length() -> nat {
    31
}

/// The capabilities among the fields of fixed width.
pub open spec fn offered(fixed: Seq<u8>) -> u32 {
    le_value(fixed.subrange(13, 15) + fixed.subrange(18, 20)) as u32
}

/// The second part of a nonce whose length is announced as `length`: thirteen
/// bytes or more, where the connection is a secure one.
pub open spec fn second_part(capabilities: u32, length: u8, bytes: Seq<u8>) -> Field<Seq<u8>> {
    if takes_up(capabilities, CLIENT_SECURE_CONNECTION) {
        read_bytes(
            bytes,
            if length > 21 {
                (length - 8) as nat
            } else {
                13
            },
        )
    } else {
        (Ok(seq![]), bytes)
    }
}

/// A text that is there where `capabilities` take up `capability`, and
/// `otherwise` where they do not.
pub open spec fn optional_text(
    capabilities: u32,
    capability: u32,
    otherwise: Seq<char>,
    bytes: Seq<u8>,
) -> Field<Seq<char>> {
    if takes_up(capabilities, capability) {
        read_cstring(bytes)
    } else {
        (Ok(otherwise), bytes)
    }
}

/// No more than the first twenty bytes.
pub open spec fn cut_nonce(nonce: Seq<u8>) -> Seq<u8> {
    if nonce.len() > NONCE_LENGTH {
        nonce.take(NONCE_LENGTH as int)
    } else {
        nonce
    }
}

/// The greeting that a payload carries after its version byte.
pub open spec fn greeting_after_version(bytes: Seq<u8>) -> Result<Greeting, Fault> {
    match read_cstring(bytes) {
        (Err(fault), _) => Err(fault),
        (Ok(server_version), bytes) => match read_bytes(bytes, fixed_length()) {
            (Err(fault), _) => Err(fault),
            (Ok(fixed), bytes) => match second_part(offered(fixed), fixed[20], bytes) {
                (Err(fault), _) => Err(fault),
                (Ok(second), bytes) => match optional_text(
                    offered(fixed),
                    CLIENT_PLUGIN_AUTH,
                    NATIVE_PASSWORD@,
                    bytes,
                ) {
                    (Err(fault), _) => Err(fault),
                    (Ok(plugin), _) => Ok(
                        Greeting {
                            server_version,
                            connection_id: le_value(fixed.take(4)) as u32,
                            nonce: cut_nonce(fixed.subrange(4, 12) + second),
                            capabilities: offered(fixed),
                            plugin,
                        },
                    ),
                },
            },
        },
    }
}

/// The greeting that a payload carries.
pub open spec fn greeting_of(payload: Seq<u8>) -> Result<Greeting, Fault> {
    match read_byte(payload) {
        (Err(fault), _) => Err(fault),
        (Ok(version), bytes) => if version != PROTOCOL_VERSION {
            Err(lasting("handshake version "@ + decimal_text(version as nat) + " is not 10"@))
        } else {
            greeting_after_version(bytes)
        },
    }
}

/// `greeting` as a payload.
#[must_use]
pub fn encode_handshake(greeting: &HandshakeV10) -> (payload: Vec<u8>)
    ensures
        payload@ == greeting_bytes(greeting@),
{
    let mut nonce: Vec<u8> = Vec::new();
    let mut at: usize = 0;
    while at < NONCE_LENGTH
        invariant
            at <= NONCE_LENGTH,
            nonce@ == filled_nonce(greeting.nonce@).take(at as int),
        decreases NONCE_LENGTH - at,
    {
        nonce.push(
            if at < greeting.nonce.len() {
                greeting.nonce[at]
            } else {
                120
            },
        );
        at += 1;
        assert(nonce@ =~= filled_nonce(greeting.nonce@).take(at as int));
    }
    assert(nonce@ =~= filled_nonce(greeting.nonce@));
    let mut fixed: Vec<u8> = Vec::new();
    append_le(&mut fixed, greeting.connection_id as u64, 4);
    append(&mut fixed, slice_subrange(nonce.as_slice(), 0, 8));
    fixed.push(0);
    append_le(&mut fixed, (greeting.capabilities % 0x1_0000) as u64, 2);
    fixed.push(UTF8MB4);
    append_le(&mut fixed, 2, 2);
    append_le(&mut fixed, (greeting.capabilities / 0x1_0000) as u64, 2);
    fixed.push(21);
    append_zeros(&mut fixed, 10);
    assert(fixed@ =~= fixed_fields(greeting@));
    let mut out: Vec<u8> = Vec::new();
    out.push(PROTOCOL_VERSION);
    cstring(&mut out, greeting.server_version.as_str());
    append(&mut out, fixed.as_slice());
    append(&mut out, slice_subrange(nonce.as_slice(), 8, NONCE_LENGTH));
    out.push(0);
    cstring(&mut out, greeting.plugin.as_str());
    assert(out@ =~= greeting_bytes(greeting@));
    out
}

/// Adds `count` zero bytes to the end of `out`.
fn append_zeros(out: &mut Vec<u8>, count: usize)
    ensures
        final(out)@ == old(out)@ + zeros(count as nat),
{
    let ghost before = out@;
    let mut done: usize = 0;
    while done < count
        invariant
            done <= count,
            out@ == before + zeros(done as nat),
        decreases count - done,
    {
        out.push(0);
        done += 1;
        assert(out@ =~= before + zeros(done as nat));
    }
}

/// The text that is next where `capabilities` take up `capability`, and
/// `otherwise` where they do not.
fn take_optional(
    cursor: &mut Cursor<'_>,
    capabilities: u32,
    capability: u32,
    otherwise: &str,
) -> (result: Result<String, TransportError>)
    ensures
        agrees(result, optional_text(capabilities, capability, otherwise@, old(cursor)@).0),
        final(cursor)@ == optional_text(capabilities, capability, otherwise@, old(cursor)@).1,
{
    if capabilities & capability != 0 {
        cursor.cstring()
    } else {
        Ok(otherwise.to_owned())
    }
}

/// The greeting a payload carries.
///
/// # Errors
/// A version other than 10, or a payload that breaks off.
pub fn decode_handshake(payload: &[u8]) -> (result: Result<HandshakeV10, TransportError>)
    ensures
        agrees(result, greeting_of(payload@)),
{
    let mut cursor = Cursor::new(payload);
    let version: u8 = cursor.byte()?;
    if version != PROTOCOL_VERSION {
        let mut message = "handshake version ".to_owned();
        push_decimal(&mut message, version as u128);
        message.append(" is not 10");
        return Err(protocol_error(message.as_str()));
    }
    let server_version = cursor.cstring()?;
    let fixed = cursor.take(31)?;
    let id_bytes = slice_subrange(fixed, 0, 4);
    let mut capability_bytes: Vec<u8> = Vec::new();
    append(&mut capability_bytes, slice_subrange(fixed, 13, 15));
    append(&mut capability_bytes, slice_subrange(fixed, 18, 20));
    proof {
        byte_ranges();
        le_value_bound(id_bytes@);
        le_value_bound(capability_bytes@);
        assert(id_bytes@ =~= fixed@.take(4));
        assert(capability_bytes@ =~= fixed@.subrange(13, 15) + fixed@.subrange(18, 20));
    }
    let connection_id: u32 = le_value_of(id_bytes) as u32;
    let capabilities: u32 = le_value_of(capability_bytes.as_slice()) as u32;
    let mut nonce: Vec<u8> = slice_to_vec(slice_subrange(fixed, 4, 12));
    if capabilities & CLIENT_SECURE_CONNECTION != 0 {
        let length: usize = fixed[20] as usize;
        let second = cursor.take(if length > 21 { length - 8 } else { 13 })?;
        append(&mut nonce, second);
    } else {
        assert(nonce@ =~= nonce@ + Seq::<u8>::empty());
    }
    nonce.truncate(NONCE_LENGTH);
    let plugin = take_optional(&mut cursor, capabilities, CLIENT_PLUGIN_AUTH, NATIVE_PASSWORD)?;
    Ok(HandshakeV10 { server_version, connection_id, nonce, capabilities, plugin })
}

// The response.

/// A text that is written where `capabilities` take up `capability`.
pub open spec fn optional_bytes(capabilities: u32, capability: u32, text: Seq<char>) -> Seq<u8> {
    if takes_up(capabilities, capability) {
        ended_string(text)
    } else {
        seq![]
    }
}

/// A response as a payload: the capabilities, the largest packet, the
/// collation, 23 bytes that are not used, the user, the scrambled password
/// behind its length byte, the database and the plugin.
pub open spec fn response_bytes(response: Response) -> Seq<u8> {
    let length = response.auth_response.len();
    le_bytes(response.capabilities as nat, 4) + le_bytes(0x0100_0000, 4) + seq![UTF8MB4] + zeros(
        23,
    ) + ended_string(response.user) + seq![
        if length <= 255 {
            length as u8
        } else {
            255u8
        },
    ] + response.auth_response + optional_bytes(
        response.capabilities,
        CLIENT_CONNECT_WITH_DB,
        response.database,
    ) + optional_bytes(response.capabilities, CLIENT_PLUGIN_AUTH, response.plugin)
}

/// The scrambled password: behind a length-encoded length, behind a length
/// byte, or before a NUL, as the capabilities say.
pub open spec fn auth_field(capabilities: u32, bytes: Seq<u8>) -> Result<
    (Seq<u8>, Seq<u8>),
    Fault,
> {
    if takes_up(capabilities, CLIENT_PLUGIN_AUTH_LENENC_CLIENT_DATA) {
        match read_lenenc(bytes) {
            (Err(fault), _) => Err(fault),
            (Ok(length), bytes) => match read_bytes(
                bytes,
                if length > usize::MAX {
                    0
                } else {
                    length as nat
                },
            ) {
                (Err(fault), _) => Err(fault),
                (Ok(auth_response), bytes) => Ok((auth_response, bytes)),
            },
        }
    } else if takes_up(capabilities, CLIENT_SECURE_CONNECTION) {
        match read_byte(bytes) {
            (Err(fault), _) => Err(fault),
            (Ok(length), bytes) => match read_bytes(bytes, length as nat) {
                (Err(fault), _) => Err(fault),
                (Ok(auth_response), bytes) => Ok((auth_response, bytes)),
            },
        }
    } else {
        match read_cstring(bytes) {
            (Err(fault), _) => Err(fault),
            (Ok(text), bytes) => Ok((encode_utf8(text), bytes)),
        }
    }
}

/// What a response carries after its user.
pub open spec fn response_after_user(
    capabilities: u32,
    user: Seq<char>,
    bytes: Seq<u8>,
) -> Result<Response, Fault> {
    match auth_field(capabilities, bytes) {
        Err(fault) => Err(fault),
        Ok((auth_response, bytes)) => match optional_text(
            capabilities,
            CLIENT_CONNECT_WITH_DB,
            seq![],
            bytes,
        ) {
            (Err(fault), _) => Err(fault),
            (Ok(database), bytes) => match optional_text(
                capabilities,
                CLIENT_PLUGIN_AUTH,
                NATIVE_PASSWORD@,
                bytes,
            ) {
                (Err(fault), _) => Err(fault),
                (Ok(plugin), _) => Ok(
                    Response { capabilities, user, auth_response, database, plugin },
                ),
            },
        },
    }
}

/// The response that a payload carries.
pub open spec fn response_of(payload: Seq<u8>) -> Result<Response, Fault> {
    match read_int32(payload) {
        (Err(fault), _) => Err(fault),
        (Ok(capabilities), bytes) => if !takes_up(capabilities, CLIENT_PROTOCOL_41) {
            Err(lasting("a client without protocol 4.1"@))
        } else {
            match read_bytes(bytes, 28) {
                (Err(fault), _) => Err(fault),
                (Ok(_), bytes) => match read_cstring(bytes) {
                    (Err(fault), _) => Err(fault),
                    (Ok(user), bytes) => response_after_user(capabilities, user, bytes),
                },
            }
        },
    }
}

/// `response` as a payload.
#[must_use]
pub fn encode_response(response: &HandshakeResponse41) -> (payload: Vec<u8>)
    ensures
        payload@ == response_bytes(response@),
{
    let mut out: Vec<u8> = Vec::new();
    append_le(&mut out, response.capabilities as u64, 4);
    append_le(&mut out, 0x0100_0000, 4);
    out.push(UTF8MB4);
    append_zeros(&mut out, 23);
    cstring(&mut out, response.user.as_str());
    let length: usize = response.auth_response.len();
    out.push(if length <= 255 { length as u8 } else { 255 });
    append(&mut out, response.auth_response.as_slice());
    if response.capabilities & CLIENT_CONNECT_WITH_DB != 0 {
        cstring(&mut out, response.database.as_str());
    }
    if response.capabilities & CLIENT_PLUGIN_AUTH != 0 {
        cstring(&mut out, response.plugin.as_str());
    }
    assert(out@ =~= response_bytes(response@));
    out
}

/// The scrambled password that is next.
fn take_auth(cursor: &mut Cursor<'_>, capabilities: u32) -> (result: Result<
    Vec<u8>,
    TransportError,
>)
    ensures
        match (result, auth_field(capabilities, old(cursor)@)) {
            (Ok(bytes), Ok((expected, rest))) => bytes@ == expected && final(cursor)@ == rest,
            (Err(error), Err(fault)) => error@ == fault,
            _ => false,
        },
{
    if capabilities & CLIENT_PLUGIN_AUTH_LENENC_CLIENT_DATA != 0 {
        let length: u64 = cursor.lenenc_int()?;
        let length: usize = if length > usize::MAX as u64 { 0 } else { length as usize };
        Ok(slice_to_vec(cursor.take(length)?))
    } else if capabilities & CLIENT_SECURE_CONNECTION != 0 {
        let length: u8 = cursor.byte()?;
        Ok(slice_to_vec(cursor.take(length as usize)?))
    } else {
        let text = cursor.cstring()?;
        Ok(slice_to_vec(text.as_str().as_bytes()))
    }
}

/// The response a payload carries.
///
/// # Errors
/// A client without protocol 4.1, or a payload that breaks off.
pub fn decode_response(payload: &[u8]) -> (result: Result<HandshakeResponse41, TransportError>)
    ensures
        agrees(result, response_of(payload@)),
{
    let mut cursor = Cursor::new(payload);
    let capabilities: u32 = cursor.int32()?;
    if capabilities & CLIENT_PROTOCOL_41 == 0 {
        return Err(protocol_error("a client without protocol 4.1"));
    }
    cursor.skip(4 + 1 + 23)?;
    let user = cursor.cstring()?;
    let auth_response = take_auth(&mut cursor, capabilities)?;
    proof {
        reveal_strlit("");
        assert(""@ =~= seq![]);
    }
    let database = take_optional(&mut cursor, capabilities, CLIENT_CONNECT_WITH_DB, "")?;
    let plugin = take_optional(&mut cursor, capabilities, CLIENT_PLUGIN_AUTH, NATIVE_PASSWORD)?;
    Ok(HandshakeResponse41 { capabilities, user, auth_response, database, plugin })
}

// The switch to another plugin.

/// Bytes without the zero that ends them, where one does.
pub open spec fn without_final_zero(bytes: Seq<u8>) -> Seq<u8> {
    if bytes.len() > 0 && bytes.last() == 0 {
        bytes.drop_last()
    } else {
        bytes
    }
}

/// The plugin and the nonce that a request to switch plugins carries.
pub open spec fn switch_of(payload: Seq<u8>) -> Result<(Seq<char>, Seq<u8>), Fault> {
    match read_byte(payload) {
        (Err(fault), _) => Err(fault),
        (Ok(_), bytes) => match read_cstring(bytes) {
            (Err(fault), _) => Err(fault),
            (Ok(plugin), bytes) => Ok((plugin, without_final_zero(bytes))),
        },
    }
}

/// A server's request to switch plugins mid-login: the plugin and its
/// nonce. The payload opens with `0xFE`.
///
/// # Errors
/// A payload that breaks off.
pub fn decode_auth_switch(payload: &[u8]) -> (result: Result<(String, Vec<u8>), TransportError>)
    ensures
        agrees(result, switch_of(payload@)),
{
    let mut cursor = Cursor::new(payload);
    cursor.skip(1)?;
    let plugin = cursor.cstring()?;
    let rest = cursor.rest();
    let mut nonce: Vec<u8> = slice_to_vec(rest);
    if nonce.len() > 0 && nonce[nonce.len() - 1] == 0 {
        nonce.pop();
    }
    assert(nonce@ =~= without_final_zero(rest@));
    Ok((plugin, nonce))
}

// What holds of a login.

/// What [`scramble`] makes of a password and a nonce, [`verify`] takes for
/// them. It is a digest long, and empty for an empty password.
pub proof fn scramble_verified(password: Seq<char>, nonce: Seq<u8>)
    ensures
        verifies(password, nonce, scrambled(password, nonce)),
        password.len() > 0 ==> scrambled(password, nonce).len() == DIGEST_LENGTH,
        password.len() == 0 ==> scrambled(password, nonce).len() == 0,
{
    digest_length(encode_utf8(password));
}

/// A server that holds only the digest of a password's digest recovers the
/// password's digest from the response, and so can check it.
pub proof fn digest_recovered(password: Seq<char>, nonce: Seq<u8>)
    requires
        password.len() > 0,
    ensures
        ({
            let recovered = xor(
                scrambled(password, nonce),
                digest_of(nonce + stored(password)),
            );
            &&& recovered == digest_of(encode_utf8(password))
            &&& digest_of(recovered) == stored(password)
        }),
{
    let first = digest_of(encode_utf8(password));
    let third = digest_of(nonce + stored(password));
    digest_length(encode_utf8(password));
    digest_length(nonce + stored(password));
    assert forall|i: int| 0 <= i < first.len() implies #[trigger] xor(xor(first, third), third)[i]
        == first[i] by {
        let a = first[i];
        let b = third[i];
        assert((a ^ b) ^ b == a) by (bit_vector);
    }
    assert(xor(xor(first, third), third) =~= first);
}

/// The capabilities this crate takes up, one by one.
pub proof fn capabilities_taken_up()
    ensures
        takes_up(CAPABILITIES, CLIENT_PROTOCOL_41),
        takes_up(CAPABILITIES, CLIENT_SECURE_CONNECTION),
        takes_up(CAPABILITIES, CLIENT_PLUGIN_AUTH),
        takes_up(CAPABILITIES, CLIENT_CONNECT_WITH_DB),
        !takes_up(CAPABILITIES, CLIENT_PLUGIN_AUTH_LENENC_CLIENT_DATA),
{
    assert((0x200u32 | 0x8000u32 | 0x8_0000u32 | 0x8u32) & 0x200u32 != 0) by (bit_vector);
    assert((0x200u32 | 0x8000u32 | 0x8_0000u32 | 0x8u32) & 0x8000u32 != 0) by (bit_vector);
    assert((0x200u32 | 0x8000u32 | 0x8_0000u32 | 0x8u32) & 0x8_0000u32 != 0) by (bit_vector);
    assert((0x200u32 | 0x8000u32 | 0x8_0000u32 | 0x8u32) & 0x8u32 != 0) by (bit_vector);
    assert((0x200u32 | 0x8000u32 | 0x8_0000u32 | 0x8u32) & 0x20_0000u32 == 0) by (bit_vector);
}

/// Two halves of the capabilities make the whole.
proof fn halves_joined(capabilities: u32)
    ensures
        le_value(
            le_bytes((capabilities % 0x1_0000) as nat, 2) + le_bytes(
                (capabilities / 0x1_0000) as nat,
                2,
            ),
        ) == capabilities,
{
    reveal_with_fuel(le_bytes, 5);
    let lower = (capabilities % 0x1_0000) as nat;
    let upper = (capabilities / 0x1_0000) as nat;
    let whole = capabilities as nat;
    assert(lower % 256 == whole % 256);
    assert(lower / 256 % 256 == whole / 256 % 256);
    assert(upper == whole / 256 / 256);
    assert(le_bytes(lower, 2) + le_bytes(upper, 2) =~= le_bytes(whole, 4));
    byte_ranges();
    le_value_of_le_bytes(whole, 4);
}

/// The fields of fixed width are where they are looked for.
proof fn fixed_fields_found(greeting: Greeting)
    ensures
        fixed_fields(greeting).len() == fixed_length(),
        le_value(fixed_fields(greeting).take(4)) == greeting.connection_id,
        fixed_fields(greeting).subrange(4, 12) == filled_nonce(greeting.nonce).take(8),
        offered(fixed_fields(greeting)) == greeting.capabilities,
        fixed_fields(greeting)[20] == 21,
{
    let fixed = fixed_fields(greeting);
    let id = le_bytes(greeting.connection_id as nat, 4);
    let lower = le_bytes((greeting.capabilities % 0x1_0000) as nat, 2);
    let upper = le_bytes((greeting.capabilities / 0x1_0000) as nat, 2);
    byte_ranges();
    le_bytes_length(greeting.connection_id as nat, 4);
    le_value_of_le_bytes(greeting.connection_id as nat, 4);
    le_bytes_length((greeting.capabilities % 0x1_0000) as nat, 2);
    le_bytes_length((greeting.capabilities / 0x1_0000) as nat, 2);
    le_bytes_length(2, 2);
    assert(fixed.take(4) =~= id);
    assert(fixed.subrange(4, 12) =~= filled_nonce(greeting.nonce).take(8));
    assert(fixed.subrange(13, 15) =~= lower);
    assert(fixed.subrange(18, 20) =~= upper);
    halves_joined(greeting.capabilities);
}

/// A greeting that is read back: with a whole nonce, on a secure connection,
/// with texts that have no NUL, and naming the native plugin where it does
/// not take up naming one.
pub open spec fn plain_greeting(greeting: Greeting) -> bool {
    &&& no_nul(greeting.server_version)
    &&& no_nul(greeting.plugin)
    &&& greeting.nonce.len() == NONCE_LENGTH
    &&& takes_up(greeting.capabilities, CLIENT_SECURE_CONNECTION)
    &&& takes_up(greeting.capabilities, CLIENT_PLUGIN_AUTH) || greeting.plugin == NATIVE_PASSWORD@
}

/// A greeting's bytes after its version byte, from the front.
spec fn after_version_byte(greeting: Greeting) -> Seq<u8> {
    ended_string(greeting.server_version) + (fixed_fields(greeting) + (filled_nonce(
        greeting.nonce,
    ).skip(8).push(0) + ended_string(greeting.plugin)))
}

/// Joining is associative.
proof fn regrouped(a: Seq<u8>, b: Seq<u8>, c: Seq<u8>)
    ensures
        (a + b) + c == a + (b + c),
{
    assert((a + b) + c =~= a + (b + c));
}

/// A greeting's bytes, taken from the front.
#[verifier::rlimit(40)]
proof fn greeting_layout(greeting: Greeting)
    ensures
        greeting_bytes(greeting) == seq![PROTOCOL_VERSION] + after_version_byte(greeting),
{
    let v = seq![PROTOCOL_VERSION];
    let s = ended_string(greeting.server_version);
    let f = fixed_fields(greeting);
    let n = filled_nonce(greeting.nonce).skip(8);
    let p = ended_string(greeting.plugin);
    assert(n + seq![0u8] =~= n.push(0));
    regrouped(v, s, f);
    regrouped(v, s + f, n);
    regrouped(v, s + f + n, seq![0u8]);
    regrouped(v, s + f + n + seq![0u8], p);
    regrouped(s, f, n);
    regrouped(s, f + n, seq![0u8]);
    regrouped(s, f + n + seq![0u8], p);
    regrouped(f, n, seq![0u8]);
    regrouped(f, n + seq![0u8], p);
}

/// What follows a greeting's version byte is read back.
proof fn after_version_read_back(greeting: Greeting)
    requires
        plain_greeting(greeting),
    ensures
        greeting_after_version(after_version_byte(greeting)) == Ok::<Greeting, Fault>(greeting),
{
    let nonce = filled_nonce(greeting.nonce);
    let fixed = fixed_fields(greeting);
    let plugin = ended_string(greeting.plugin);
    let second = nonce.skip(8).push(0);
    assert(nonce =~= greeting.nonce);
    cstring_read_back(greeting.server_version, fixed + (second + plugin));
    fixed_fields_found(greeting);
    bytes_read_back(fixed, second + plugin);
    bytes_read_back(second, plugin);
    assert(cut_nonce(nonce.take(8) + second) =~= greeting.nonce);
    assert(plugin + Seq::<u8>::empty() =~= plugin);
    cstring_read_back(greeting.plugin, Seq::empty());
}

/// A greeting with a whole nonce, on a secure connection, is read back: its
/// texts have no NUL, and it names the native plugin where it does not take
/// up naming one.
pub proof fn greeting_read_back(greeting: Greeting)
    requires
        plain_greeting(greeting),
    ensures
        greeting_of(greeting_bytes(greeting)) == Ok::<Greeting, Fault>(greeting),
{
    greeting_layout(greeting);
    byte_read_back(PROTOCOL_VERSION, after_version_byte(greeting));
    after_version_read_back(greeting);
}

/// A response that is read back: of a 4.1 client on a secure connection, with
/// texts that have no NUL, a password no longer than its length byte can say,
/// and where it does not take up a field, what a reader fills in.
pub open spec fn plain_response(response: Response) -> bool {
    &&& no_nul(response.user)
    &&& no_nul(response.database)
    &&& no_nul(response.plugin)
    &&& response.auth_response.len() <= 255
    &&& takes_up(response.capabilities, CLIENT_PROTOCOL_41)
    &&& takes_up(response.capabilities, CLIENT_SECURE_CONNECTION)
    &&& !takes_up(response.capabilities, CLIENT_PLUGIN_AUTH_LENENC_CLIENT_DATA)
    &&& takes_up(response.capabilities, CLIENT_CONNECT_WITH_DB) || response.database.len() == 0
    &&& takes_up(response.capabilities, CLIENT_PLUGIN_AUTH) || response.plugin == NATIVE_PASSWORD@
}

/// A response's bytes after its user, from the front.
spec fn after_user_bytes(response: Response) -> Seq<u8> {
    seq![response.auth_response.len() as u8] + (response.auth_response + (optional_bytes(
        response.capabilities,
        CLIENT_CONNECT_WITH_DB,
        response.database,
    ) + optional_bytes(response.capabilities, CLIENT_PLUGIN_AUTH, response.plugin)))
}

/// The bytes of a response that are the same in each.
spec fn same_in_each() -> Seq<u8> {
    le_bytes(0x0100_0000, 4) + seq![UTF8MB4] + zeros(23)
}

/// A response's bytes, taken from the front.
#[verifier::rlimit(40)]
proof fn response_layout(response: Response)
    requires
        response.auth_response.len() <= 255,
    ensures
        response_bytes(response) == le_bytes(response.capabilities as nat, 4) + (same_in_each() + (
        ended_string(response.user) + after_user_bytes(response))),
{
    let c = le_bytes(response.capabilities as nat, 4);
    let m = le_bytes(0x0100_0000, 4);
    let t = seq![UTF8MB4];
    let z = zeros(23);
    let u = ended_string(response.user);
    let l = seq![response.auth_response.len() as u8];
    let a = response.auth_response;
    let d = optional_bytes(response.capabilities, CLIENT_CONNECT_WITH_DB, response.database);
    let p = optional_bytes(response.capabilities, CLIENT_PLUGIN_AUTH, response.plugin);
    regrouped(c, m, t);
    regrouped(c, m + t, z);
    let s = same_in_each();
    regrouped(c, s, u);
    regrouped(c, s + u, l);
    regrouped(c, s + u + l, a);
    regrouped(c, s + u + l + a, d);
    regrouped(c, s + u + l + a + d, p);
    regrouped(s, u, l);
    regrouped(s, u + l, a);
    regrouped(s, u + l + a, d);
    regrouped(s, u + l + a + d, p);
    regrouped(u, l, a);
    regrouped(u, l + a, d);
    regrouped(u, l + a + d, p);
    regrouped(l, a, d);
    regrouped(l, a + d, p);
    regrouped(a, d, p);
}

/// What follows a response's user is read back.
proof fn after_user_read_back(response: Response)
    requires
        plain_response(response),
    ensures
        response_after_user(response.capabilities, response.user, after_user_bytes(response))
            == Ok::<Response, Fault>(response),
{
    let capabilities = response.capabilities;
    let length = response.auth_response.len() as u8;
    let plugin = optional_bytes(capabilities, CLIENT_PLUGIN_AUTH, response.plugin);
    let database = optional_bytes(capabilities, CLIENT_CONNECT_WITH_DB, response.database);
    let after_auth = database + plugin;
    byte_read_back(length, response.auth_response + after_auth);
    bytes_read_back(response.auth_response, after_auth);
    if takes_up(capabilities, CLIENT_CONNECT_WITH_DB) {
        cstring_read_back(response.database, plugin);
    } else {
        assert(response.database =~= seq![]);
        assert(after_auth =~= plugin);
    }
    if takes_up(capabilities, CLIENT_PLUGIN_AUTH) {
        assert(plugin + Seq::<u8>::empty() =~= plugin);
        cstring_read_back(response.plugin, Seq::empty());
    }
}

/// The bytes that are the same in each response are twenty-eight.
proof fn same_length()
    ensures
        same_in_each().len() == 28,
{
    le_bytes_length(0x0100_0000, 4);
}

/// A response is read up to its user, and from there on its own.
proof fn response_opening(capabilities: u32, fixed: Seq<u8>, user: Seq<char>, after_user: Seq<u8>)
    requires
        takes_up(capabilities, CLIENT_PROTOCOL_41),
        fixed.len() == 28,
        no_nul(user),
    ensures
        response_of(
            le_bytes(capabilities as nat, 4) + (fixed + (ended_string(user) + after_user)),
        ) == response_after_user(capabilities, user, after_user),
{
    let after_fixed = ended_string(user) + after_user;
    int32_read_back(capabilities, fixed + after_fixed);
    bytes_read_back(fixed, after_fixed);
    cstring_read_back(user, after_user);
}

/// A response of a 4.1 client on a secure connection is read back: its texts
/// have no NUL, its password is no longer than its length byte can say, and
/// what it does not take up is what a reader fills in.
#[verifier::rlimit(40)]
pub proof fn response_read_back(response: Response)
    requires
        plain_response(response),
    ensures
        response_of(response_bytes(response)) == Ok::<Response, Fault>(response),
{
    response_layout(response);
    same_length();
    response_opening(
        response.capabilities,
        same_in_each(),
        response.user,
        after_user_bytes(response),
    );
    after_user_read_back(response);
}

/// A request to switch plugins gives its plugin and nonce, without the NUL
/// that ends the nonce.
pub proof fn switch_read_back(opening: u8, plugin: Seq<char>, nonce: Seq<u8>)
    requires
        no_nul(plugin),
    ensures
        switch_of(seq![opening] + ended_string(plugin) + nonce.push(0)) == Ok::<
            (Seq<char>, Seq<u8>),
            Fault,
        >((plugin, nonce)),
{
    let after = ended_string(plugin) + nonce.push(0);
    assert(seq![opening] + ended_string(plugin) + nonce.push(0) =~= seq![opening] + after);
    byte_read_back(opening, after);
    cstring_read_back(plugin, nonce.push(0));
    assert(nonce.push(0).drop_last() =~= nonce);
}

} // verus!
