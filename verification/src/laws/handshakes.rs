//! What holds of a login's packets, whoever wrote them.

use crate::error::Fault;
use crate::handshake::{
    auth_field, filled_nonce, fixed_fields, greeting_bytes, greeting_of, optional_text,
    response_after_user, response_bytes, response_of, switch_of, Greeting, Response, CAPABILITIES,
};
use crate::laws::fields::{
    ended_strings_are_read_to_their_nul, fixed_fields_are_taken_from_the_front,
    numbers_are_read_low_byte_first, numbers_are_written_low_byte_first,
};
use crate::text::lossy_text;
use crate::wire::{
    byte_read_back, bytes_read_back, le_value, lenenc, lenenc_read_back, read_cstring,
};
use vstd::prelude::*;
use vstd::utf8::encode_utf8;

verus! {

/// Bytes without a zero.
pub open spec fn zero_free(bytes: Seq<u8>) -> bool {
    forall|i: int| 0 <= i < bytes.len() ==> bytes[i] != 0
}

/// The capabilities that are taken up: protocol 4.1, the secure connection,
/// plugin authentication and connecting straight to the database.
pub proof fn four_capabilities_are_taken_up()
    ensures
        CAPABILITIES == 0x8_8208,
{
    assert(0x200u32 | 0x8000u32 | 0x8_0000u32 | 0x8u32 == 0x8_8208u32) by (bit_vector);
}

/// A greeting as it goes over the wire, field by field, its nonce as twenty
/// bytes.
#[verifier::rlimit(40)]
pub proof fn greeting_is_written_field_by_field(greeting: Greeting)
    ensures
        ({
            let id = greeting.connection_id;
            let capabilities = greeting.capabilities;
            let nonce = filled_nonce(greeting.nonce);
            greeting_bytes(greeting) == seq![10u8] + encode_utf8(greeting.server_version) + seq![
                0u8,
            ] + seq![
                (id % 256) as u8,
                (id / 0x100 % 256) as u8,
                (id / 0x1_0000 % 256) as u8,
                (id / 0x100_0000 % 256) as u8,
            ] + nonce.take(8) + seq![
                0u8,
                (capabilities % 256) as u8,
                (capabilities / 0x100 % 256) as u8,
                45u8,
                2u8,
                0u8,
                (capabilities / 0x1_0000 % 256) as u8,
                (capabilities / 0x100_0000 % 256) as u8,
                21u8,
                0u8,
                0u8,
                0u8,
                0u8,
                0u8,
                0u8,
                0u8,
                0u8,
                0u8,
                0u8,
            ] + nonce.skip(8) + seq![0u8] + encode_utf8(greeting.plugin) + seq![0u8]
        }),
{
    let id = greeting.connection_id;
    let capabilities = greeting.capabilities;
    let nonce = filled_nonce(greeting.nonce);
    let id_bytes = seq![
        (id % 256) as u8,
        (id / 0x100 % 256) as u8,
        (id / 0x1_0000 % 256) as u8,
        (id / 0x100_0000 % 256) as u8,
    ];
    let middle = seq![
        0u8,
        (capabilities % 256) as u8,
        (capabilities / 0x100 % 256) as u8,
        45u8,
        2u8,
        0u8,
        (capabilities / 0x1_0000 % 256) as u8,
        (capabilities / 0x100_0000 % 256) as u8,
        21u8,
        0u8,
        0u8,
        0u8,
        0u8,
        0u8,
        0u8,
        0u8,
        0u8,
        0u8,
        0u8,
    ];
    fixed_part(greeting);
    let version = encode_utf8(greeting.server_version);
    let plugin = encode_utf8(greeting.plugin);
    assert(version.push(0) =~= version + seq![0u8]);
    assert(plugin.push(0) =~= plugin + seq![0u8]);
    let opening = seq![10u8] + version + seq![0u8];
    assert(seq![10u8] + (version + seq![0u8]) =~= opening);
    let left = opening + (id_bytes + nonce.take(8) + middle) + nonce.skip(8) + seq![0u8];
    assert(opening + (id_bytes + nonce.take(8) + middle) =~= opening + id_bytes + nonce.take(8)
        + middle);
    assert(left + (plugin + seq![0u8]) =~= left + plugin + seq![0u8]);
}

/// The fields of fixed width in the middle of a greeting.
#[verifier::rlimit(40)]
proof fn fixed_part(greeting: Greeting)
    ensures
        ({
            let id = greeting.connection_id;
            let capabilities = greeting.capabilities;
            let nonce = filled_nonce(greeting.nonce);
            fixed_fields(greeting) == seq![
                (id % 256) as u8,
                (id / 0x100 % 256) as u8,
                (id / 0x1_0000 % 256) as u8,
                (id / 0x100_0000 % 256) as u8,
            ] + nonce.take(8) + seq![
                0u8,
                (capabilities % 256) as u8,
                (capabilities / 0x100 % 256) as u8,
                45u8,
                2u8,
                0u8,
                (capabilities / 0x1_0000 % 256) as u8,
                (capabilities / 0x100_0000 % 256) as u8,
                21u8,
                0u8,
                0u8,
                0u8,
                0u8,
                0u8,
                0u8,
                0u8,
                0u8,
                0u8,
                0u8,
            ]
        }),
{
    let id = greeting.connection_id;
    let capabilities = greeting.capabilities;
    let low = (capabilities % 0x1_0000) as nat;
    let high = (capabilities / 0x1_0000) as nat;
    numbers_are_written_low_byte_first(id as nat);
    numbers_are_written_low_byte_first(low);
    numbers_are_written_low_byte_first(high);
    numbers_are_written_low_byte_first(2);
    assert(low % 256 == capabilities % 256);
    assert(low / 0x100 % 256 == capabilities / 0x100 % 256);
    assert(high / 0x100 % 256 == capabilities / 0x100_0000 % 256);
    let nonce = filled_nonce(greeting.nonce);
    assert(fixed_fields(greeting) =~= seq![
        (id % 256) as u8,
        (id / 0x100 % 256) as u8,
        (id / 0x1_0000 % 256) as u8,
        (id / 0x100_0000 % 256) as u8,
    ] + nonce.take(8) + seq![
        0u8,
        (capabilities % 256) as u8,
        (capabilities / 0x100 % 256) as u8,
        45u8,
        2u8,
        0u8,
        (capabilities / 0x1_0000 % 256) as u8,
        (capabilities / 0x100_0000 % 256) as u8,
        21u8,
        0u8,
        0u8,
        0u8,
        0u8,
        0u8,
        0u8,
        0u8,
        0u8,
        0u8,
        0u8,
    ]);
}

/// A greeting of any server is read field by field: the version to its NUL,
/// the id, eight bytes of nonce, the two halves of the capabilities, and,
/// where the connection is secure, as much more of the nonce as is announced,
/// thirteen bytes at the least, of which twenty are kept; then the plugin,
/// where it is named, and the native one where it is not.
#[verifier::rlimit(40)]
pub proof fn greeting_is_read_field_by_field(
    version: Seq<u8>,
    i: Seq<u8>,
    first: Seq<u8>,
    filler: u8,
    c: Seq<u8>,
    status: Seq<u8>,
    announced: u8,
    unused: Seq<u8>,
    second: Seq<u8>,
    after: Seq<u8>,
)
    requires
        zero_free(version),
        i.len() == 4,
        first.len() == 8,
        c.len() == 4,
        status.len() == 3,
        unused.len() == 10,
        second.len() == (if announced > 21 {
            announced - 8
        } else {
            13
        }),
    ensures
        ({
            let capabilities = (c[0] + c[1] * 0x100 + c[2] * 0x1_0000 + c[3] * 0x100_0000) as u32;
            let fields = i + first + seq![filler] + c.take(2) + status + c.skip(2) + seq![announced]
                + unused;
            let start = seq![10u8] + (version + seq![0u8] + fields);
            let secure = capabilities & 0x8000 != 0;
            let named = capabilities & 0x8_0000 != 0;
            let read = greeting_of(start + (if secure {
                second
            } else {
                seq![]
            }) + after);
            &&& read matches Ok(greeting) ==> {
                &&& greeting.server_version == lossy_text(version)
                &&& greeting.connection_id == i[0] + i[1] * 0x100 + i[2] * 0x1_0000 + i[3]
                    * 0x100_0000
                &&& greeting.capabilities == capabilities
                &&& greeting.nonce == (if secure {
                    (first + second).take(20)
                } else {
                    first
                })
                &&& named ==> Ok::<Seq<char>, Fault>(greeting.plugin) == read_cstring(after).0
                &&& !named ==> greeting.plugin == "mysql_native_password"@
            }
            &&& read is Ok <==> (named ==> read_cstring(after).0 is Ok)
        }),
{
    let capabilities = (c[0] + c[1] * 0x100 + c[2] * 0x1_0000 + c[3] * 0x100_0000) as u32;
    let fields = i + first + seq![filler] + c.take(2) + status + c.skip(2) + seq![announced]
        + unused;
    let secure = capabilities & 0x8000 != 0;
    let tail = (if secure {
        second
    } else {
        seq![]
    }) + after;
    let start = seq![10u8] + (version + seq![0u8] + fields);
    let payload = start + (if secure {
        second
    } else {
        seq![]
    }) + after;
    assert(payload =~= seq![10u8] + (version + seq![0u8] + (fields + tail)));
    byte_read_back(10, version + seq![0u8] + (fields + tail));
    ended_strings_are_read_to_their_nul(version, fields + tail);
    assert(fields.len() == 31);
    bytes_read_back(fields, tail);
    fields_found(i, first, filler, c, status, announced, unused);
    assert(crate::handshake::offered(fields) == capabilities);
    if secure {
        bytes_read_back(second, after);
        let whole = first + second;
        assert(whole.len() >= 21);
    } else {
        assert(tail =~= after);
        assert(first + Seq::<u8>::empty() =~= first);
    }
}

/// The fields of fixed width stand where they are read.
#[verifier::rlimit(40)]
proof fn fields_found(
    i: Seq<u8>,
    first: Seq<u8>,
    filler: u8,
    c: Seq<u8>,
    status: Seq<u8>,
    announced: u8,
    unused: Seq<u8>,
)
    requires
        i.len() == 4,
        first.len() == 8,
        c.len() == 4,
        status.len() == 3,
        unused.len() == 10,
    ensures
        ({
            let fields = i + first + seq![filler] + c.take(2) + status + c.skip(2) + seq![announced]
                + unused;
            &&& le_value(fields.take(4)) == i[0] + i[1] * 0x100 + i[2] * 0x1_0000 + i[3]
                * 0x100_0000
            &&& fields.subrange(4, 12) == first
            &&& le_value(fields.subrange(13, 15) + fields.subrange(18, 20)) == c[0] + c[1] * 0x100
                + c[2] * 0x1_0000 + c[3] * 0x100_0000
            &&& fields[20] == announced
        }),
{
    let fields = i + first + seq![filler] + c.take(2) + status + c.skip(2) + seq![announced]
        + unused;
    assert(fields.take(4) =~= seq![i[0], i[1], i[2], i[3]]);
    numbers_are_read_low_byte_first(i[0], i[1], i[2], i[3], 0, 0, 0, 0);
    assert(fields.subrange(4, 12) =~= first);
    assert(fields.subrange(13, 15) + fields.subrange(18, 20) =~= seq![c[0], c[1], c[2], c[3]]);
    numbers_are_read_low_byte_first(c[0], c[1], c[2], c[3], 0, 0, 0, 0);
}

/// A greeting of another version is refused for good, and so is nothing.
pub proof fn other_greeting_versions_are_refused(version: u8, rest: Seq<u8>)
    requires
        version != 10,
    ensures
        greeting_of(seq![version] + rest) matches Err(fault) && !fault.retryable,
        greeting_of(seq![]) matches Err(fault) && !fault.retryable,
{
    byte_read_back(version, rest);
}

/// A greeting that breaks off - in its version, in its fixed fields, or in the
/// nonce of a secure connection - is refused for good.
#[verifier::rlimit(40)]
pub proof fn broken_greetings_are_refused(
    version: Seq<u8>,
    few: Seq<u8>,
    i: Seq<u8>,
    first: Seq<u8>,
    filler: u8,
    c: Seq<u8>,
    status: Seq<u8>,
    announced: u8,
    unused: Seq<u8>,
    second: Seq<u8>,
)
    requires
        zero_free(version),
        few.len() < 31,
        i.len() == 4,
        first.len() == 8,
        c.len() == 4,
        status.len() == 3,
        unused.len() == 10,
        second.len() < 13 || second.len() < announced - 8,
        ((c[0] + c[1] * 0x100 + c[2] * 0x1_0000 + c[3] * 0x100_0000) as u32) & 0x8000 != 0,
    ensures
        greeting_of(seq![10u8] + version) matches Err(fault) && !fault.retryable,
        greeting_of(seq![10u8] + (version + seq![0u8] + few)) matches Err(fault)
            && !fault.retryable,
        greeting_of(
            seq![10u8] + (version + seq![0u8] + ((i + first + seq![filler] + c.take(2) + status
                + c.skip(2) + seq![announced] + unused) + second)),
        ) matches Err(fault) && !fault.retryable,
{
    let fields = i + first + seq![filler] + c.take(2) + status + c.skip(2) + seq![announced]
        + unused;
    byte_read_back(10, version);
    byte_read_back(10, version + seq![0u8] + few);
    byte_read_back(10, version + seq![0u8] + (fields + second));
    ended_strings_are_read_to_their_nul(version, few);
    ended_strings_are_read_to_their_nul(version, fields + second);
    assert(fields.len() == 31);
    bytes_read_back(fields, second);
    fields_found(i, first, filler, c, status, announced, unused);
}

/// A response as it goes over the wire, field by field: the database and the
/// plugin where they are taken up, the password behind one byte of length.
#[verifier::rlimit(40)]
pub proof fn response_is_written_field_by_field(response: Response)
    ensures
        ({
            let capabilities = response.capabilities;
            response_bytes(response) == seq![
                (capabilities % 256) as u8,
                (capabilities / 0x100 % 256) as u8,
                (capabilities / 0x1_0000 % 256) as u8,
                (capabilities / 0x100_0000 % 256) as u8,
                0u8,
                0u8,
                0u8,
                1u8,
                45u8,
            ] + Seq::new(23, |i: int| 0u8) + encode_utf8(response.user) + seq![0u8] + seq![
                if response.auth_response.len() <= 255 {
                    response.auth_response.len() as u8
                } else {
                    255u8
                },
            ] + response.auth_response + (if capabilities & 8 != 0 {
                encode_utf8(response.database) + seq![0u8]
            } else {
                seq![]
            }) + (if capabilities & 0x8_0000 != 0 {
                encode_utf8(response.plugin) + seq![0u8]
            } else {
                seq![]
            })
        }),
{
    let capabilities = response.capabilities;
    numbers_are_written_low_byte_first(capabilities as nat);
    numbers_are_written_low_byte_first(0x0100_0000);
    let user = encode_utf8(response.user);
    assert(user.push(0) =~= user + seq![0u8]);
    assert(encode_utf8(response.database).push(0) =~= encode_utf8(response.database) + seq![0u8]);
    assert(encode_utf8(response.plugin).push(0) =~= encode_utf8(response.plugin) + seq![0u8]);
    let z = Seq::new(23, |i: int| 0u8);
    assert(crate::handshake::zeros(23) =~= z);
    let opening = seq![
        (capabilities % 256) as u8,
        (capabilities / 0x100 % 256) as u8,
        (capabilities / 0x1_0000 % 256) as u8,
        (capabilities / 0x100_0000 % 256) as u8,
        0u8,
        0u8,
        0u8,
        1u8,
        45u8,
    ];
    assert(crate::wire::le_bytes(capabilities as nat, 4) + crate::wire::le_bytes(0x0100_0000, 4)
        + seq![45u8] =~= opening);
    assert(opening + z + (user + seq![0u8]) =~= opening + z + user + seq![0u8]);
}

/// A response of any 4.1 client is read field by field: the user to its NUL,
/// the password behind a length-encoded length, behind one byte, or to its
/// NUL, as the capabilities say, then the database and the plugin where they
/// are taken up, and no database and the native plugin where they are not.
#[verifier::rlimit(40)]
pub proof fn response_is_read_field_by_field(
    c: Seq<u8>,
    unused: Seq<u8>,
    user: Seq<u8>,
    auth: Seq<u8>,
    password: Seq<u8>,
    database: Seq<u8>,
    plugin: Seq<u8>,
    rest: Seq<u8>,
)
    requires
        c.len() == 4,
        unused.len() == 28,
        zero_free(user),
        zero_free(database),
        zero_free(plugin),
        password.len() <= usize::MAX,
        ({
            let capabilities = (c[0] + c[1] * 0x100 + c[2] * 0x1_0000 + c[3] * 0x100_0000) as u32;
            &&& capabilities & 0x200 != 0
            &&& capabilities & 0x20_0000 != 0 ==> auth == lenenc(password.len() as u64) + password
            &&& capabilities & 0x20_0000 == 0 && capabilities & 0x8000 != 0 ==> auth == seq![
                password.len() as u8,
            ] + password && password.len() <= 255
            &&& capabilities & 0x20_0000 == 0 && capabilities & 0x8000 == 0 ==> auth == password
                + seq![0u8] && zero_free(password)
        }),
    ensures
        ({
            let capabilities = (c[0] + c[1] * 0x100 + c[2] * 0x1_0000 + c[3] * 0x100_0000) as u32;
            let with_database = capabilities & 8 != 0;
            let with_plugin = capabilities & 0x8_0000 != 0;
            let read = response_of(
                c + (unused + (user + seq![0u8] + (auth + ((if with_database {
                    database + seq![0u8]
                } else {
                    seq![]
                }) + ((if with_plugin {
                    plugin + seq![0u8]
                } else {
                    seq![]
                }) + rest))))),
            );
            &&& read is Ok
            &&& read->Ok_0.capabilities == capabilities
            &&& read->Ok_0.user == lossy_text(user)
            &&& capabilities & 0x20_0000 != 0 || capabilities & 0x8000 != 0
                ==> read->Ok_0.auth_response == password
            &&& capabilities & 0x20_0000 == 0 && capabilities & 0x8000 == 0
                ==> read->Ok_0.auth_response == encode_utf8(lossy_text(password))
            &&& with_database ==> read->Ok_0.database == lossy_text(database)
            &&& !with_database ==> read->Ok_0.database.len() == 0
            &&& with_plugin ==> read->Ok_0.plugin == lossy_text(plugin)
            &&& !with_plugin ==> read->Ok_0.plugin == "mysql_native_password"@
        }),
{
    let capabilities = (c[0] + c[1] * 0x100 + c[2] * 0x1_0000 + c[3] * 0x100_0000) as u32;
    let with_database = capabilities & 8 != 0;
    let with_plugin = capabilities & 0x8_0000 != 0;
    let after_database = (if with_plugin {
        plugin + seq![0u8]
    } else {
        seq![]
    }) + rest;
    let after_auth = (if with_database {
        database + seq![0u8]
    } else {
        seq![]
    }) + after_database;
    opening_read(c, unused, user, auth + after_auth);
    auth_read(capabilities, auth, password, after_auth);
    ending_read(capabilities, database, plugin, rest);
}

/// The response up to its user is read.
proof fn opening_read(c: Seq<u8>, unused: Seq<u8>, user: Seq<u8>, after_user: Seq<u8>)
    requires
        c.len() == 4,
        unused.len() == 28,
        zero_free(user),
        ((c[0] + c[1] * 0x100 + c[2] * 0x1_0000 + c[3] * 0x100_0000) as u32) & 0x200 != 0,
    ensures
        response_of(c + (unused + (user + seq![0u8] + after_user))) == response_after_user(
            (c[0] + c[1] * 0x100 + c[2] * 0x1_0000 + c[3] * 0x100_0000) as u32,
            lossy_text(user),
            after_user,
        ),
{
    let after_fixed = user + seq![0u8] + after_user;
    assert(c =~= seq![c[0], c[1], c[2], c[3]]);
    let after = unused + after_fixed;
    fixed_fields_are_taken_from_the_front(c[0], c[1], c[2], c[3], unused, after, seq![], 1);
    bytes_read_back(unused, after_fixed);
    ended_strings_are_read_to_their_nul(user, after_user);
}

/// The database and the plugin of a response are read where they are taken
/// up.
proof fn ending_read(capabilities: u32, database: Seq<u8>, plugin: Seq<u8>, rest: Seq<u8>)
    requires
        zero_free(database),
        zero_free(plugin),
    ensures
        ({
            let after_database = (if capabilities & 0x8_0000 != 0 {
                plugin + seq![0u8]
            } else {
                seq![]
            }) + rest;
            let after_auth = (if capabilities & 8 != 0 {
                database + seq![0u8]
            } else {
                seq![]
            }) + after_database;
            let (first, left) = optional_text(capabilities, 8, seq![], after_auth);
            let second = optional_text(
                capabilities,
                0x8_0000,
                "mysql_native_password"@,
                after_database,
            ).0;
            &&& left == after_database
            &&& first == Ok::<Seq<char>, Fault>(
                if capabilities & 8 != 0 {
                    lossy_text(database)
                } else {
                    seq![]
                },
            )
            &&& second == Ok::<Seq<char>, Fault>(
                if capabilities & 0x8_0000 != 0 {
                    lossy_text(plugin)
                } else {
                    "mysql_native_password"@
                },
            )
        }),
{
    let after_database = (if capabilities & 0x8_0000 != 0 {
        plugin + seq![0u8]
    } else {
        seq![]
    }) + rest;
    if capabilities & 8 != 0 {
        ended_strings_are_read_to_their_nul(database, after_database);
        assert(database + seq![0u8] + after_database =~= (database + seq![0u8]) + after_database);
    } else {
        assert(Seq::<u8>::empty() + after_database =~= after_database);
    }
    if capabilities & 0x8_0000 != 0 {
        ended_strings_are_read_to_their_nul(plugin, rest);
    }
}

/// A nonce goes out as twenty bytes: the first twenty of a longer one, and a
/// shorter one filled with `x`.
pub proof fn nonces_go_out_as_twenty_bytes(nonce: Seq<u8>, i: int)
    requires
        0 <= i < 20,
    ensures
        filled_nonce(nonce).len() == 20,
        i < nonce.len() ==> filled_nonce(nonce)[i] == nonce[i],
        i >= nonce.len() ==> filled_nonce(nonce)[i] == 120,
{
}

/// The password of a response is read as the capabilities say.
proof fn auth_read(capabilities: u32, auth: Seq<u8>, password: Seq<u8>, rest: Seq<u8>)
    requires
        password.len() <= usize::MAX,
        capabilities & 0x20_0000 != 0 ==> auth == lenenc(password.len() as u64) + password,
        capabilities & 0x20_0000 == 0 && capabilities & 0x8000 != 0 ==> auth == seq![
            password.len() as u8,
        ] + password && password.len() <= 255,
        capabilities & 0x20_0000 == 0 && capabilities & 0x8000 == 0 ==> auth == password + seq![0u8]
            && zero_free(password),
    ensures
        capabilities & 0x20_0000 != 0 || capabilities & 0x8000 != 0 ==> auth_field(
            capabilities,
            auth + rest,
        ) == Ok::<(Seq<u8>, Seq<u8>), Fault>((password, rest)),
        capabilities & 0x20_0000 == 0 && capabilities & 0x8000 == 0 ==> auth_field(
            capabilities,
            auth + rest,
        ) == Ok::<(Seq<u8>, Seq<u8>), Fault>((encode_utf8(lossy_text(password)), rest)),
{
    if capabilities & 0x20_0000 != 0 {
        assert(auth + rest =~= lenenc(password.len() as u64) + (password + rest));
        lenenc_read_back(password.len() as u64, password + rest);
        bytes_read_back(password, rest);
    } else if capabilities & 0x8000 != 0 {
        assert(auth + rest =~= seq![password.len() as u8] + (password + rest));
        byte_read_back(password.len() as u8, password + rest);
        bytes_read_back(password, rest);
    } else {
        ended_strings_are_read_to_their_nul(password, rest);
    }
}

/// A response without protocol 4.1 is refused for good, and so is one that
/// breaks off before its user.
pub proof fn older_clients_are_refused(c: Seq<u8>, rest: Seq<u8>)
    requires
        c.len() == 4,
    ensures
        ((c[0] + c[1] * 0x100 + c[2] * 0x1_0000 + c[3] * 0x100_0000) as u32) & 0x200 == 0 ==> (
        response_of(c + rest) matches Err(fault) && !fault.retryable),
        rest.len() < 28 ==> (response_of(c + rest) matches Err(fault) && !fault.retryable),
        response_of(c.take(3)) matches Err(fault) && !fault.retryable,
{
    assert(c =~= seq![c[0], c[1], c[2], c[3]]);
    fixed_fields_are_taken_from_the_front(c[0], c[1], c[2], c[3], seq![], rest, seq![], 1);
}

/// A response that breaks off - in its user, in a password shorter than its
/// length says, in its database - is refused for good.
#[verifier::rlimit(40)]
pub proof fn broken_responses_are_refused(
    c: Seq<u8>,
    unused: Seq<u8>,
    user: Seq<u8>,
    length: u8,
    short: Seq<u8>,
    password: Seq<u8>,
    database: Seq<u8>,
)
    requires
        c.len() == 4,
        unused.len() == 28,
        zero_free(user),
        zero_free(database),
        short.len() < length,
        password.len() <= 255,
        ({
            let capabilities = (c[0] + c[1] * 0x100 + c[2] * 0x1_0000 + c[3] * 0x100_0000) as u32;
            &&& capabilities & 0x200 != 0
            &&& capabilities & 0x20_0000 == 0
            &&& capabilities & 0x8000 != 0
            &&& capabilities & 8 != 0
        }),
    ensures
        response_of(c + (unused + user)) matches Err(fault) && !fault.retryable,
        response_of(c + (unused + (user + seq![0u8] + (seq![length] + short)))) matches Err(fault)
            && !fault.retryable,
        response_of(
            c + (unused + (user + seq![0u8] + ((seq![password.len() as u8] + password)
                + database))),
        ) matches Err(fault) && !fault.retryable,
{
    let capabilities = (c[0] + c[1] * 0x100 + c[2] * 0x1_0000 + c[3] * 0x100_0000) as u32;
    user_unended(c, unused, user);
    opening_read(c, unused, user, seq![length] + short);
    byte_read_back(length, short);
    let auth = seq![password.len() as u8] + password;
    opening_read(c, unused, user, auth + database);
    auth_read(capabilities, auth, password, database);
    ended_strings_are_read_to_their_nul(database, seq![]);
}

/// A response whose user is not ended is none.
proof fn user_unended(c: Seq<u8>, unused: Seq<u8>, user: Seq<u8>)
    requires
        c.len() == 4,
        unused.len() == 28,
        zero_free(user),
    ensures
        response_of(c + (unused + user)) matches Err(fault) && !fault.retryable,
{
    assert(c =~= seq![c[0], c[1], c[2], c[3]]);
    let after = unused + user;
    fixed_fields_are_taken_from_the_front(c[0], c[1], c[2], c[3], unused, after, seq![], 1);
    bytes_read_back(unused, user);
    ended_strings_are_read_to_their_nul(user, seq![]);
}

/// A request to switch plugins names its plugin after the first byte, to its
/// NUL, and the rest is the nonce, without the NUL that may end it.
pub proof fn switch_is_read_field_by_field(opening: u8, plugin: Seq<u8>, nonce: Seq<u8>)
    requires
        zero_free(plugin),
    ensures
        nonce.len() == 0 || nonce.last() != 0 ==> switch_of(
            seq![opening] + (plugin + seq![0u8] + nonce),
        ) == Ok::<(Seq<char>, Seq<u8>), Fault>((lossy_text(plugin), nonce)),
        switch_of(seq![opening] + (plugin + seq![0u8] + nonce.push(0))) == Ok::<
            (Seq<char>, Seq<u8>),
            Fault,
        >((lossy_text(plugin), nonce)),
        switch_of(seq![opening] + plugin) matches Err(fault) && !fault.retryable,
{
    byte_read_back(opening, plugin + seq![0u8] + nonce);
    byte_read_back(opening, plugin + seq![0u8] + nonce.push(0));
    byte_read_back(opening, plugin);
    ended_strings_are_read_to_their_nul(plugin, nonce);
    ended_strings_are_read_to_their_nul(plugin, nonce.push(0));
    assert(nonce.push(0).drop_last() =~= nonce);
}

} // verus!
