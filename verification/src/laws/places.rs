//! What holds of the Streams of a receive and of the place a send goes to.

use crate::error::Fault;
use crate::hex::{carried, hex_form};
use crate::laws::literals::hex_forms_are_these_three;
use crate::laws::{no_scheme, one_segment, split_joined};
use crate::stream::ArrivedView;
use crate::text::{debug_text, decimal_text};
use crate::{
    after_scheme, located, place_of, row_streams, segments, Place, DEFAULT_QUERY,
};
use vstd::prelude::*;
use vstd::utf8::encode_utf8;

verus! {

/// Each row is one Stream, in order. It carries what its last column holds -
/// the bytes of a text that names them, of any other text its own, and of a
/// NULL none - and its origin names the server, the database and, after
/// `?row=`, what its first column holds, or its index where that is a NULL.
pub proof fn rows_carry_their_last_column(
    server: Seq<char>,
    database: Seq<char>,
    rows: Seq<Seq<Option<Seq<char>>>>,
    i: int,
)
    requires
        0 <= i < rows.len(),
    ensures
        row_streams(server, database, rows).len() == rows.len(),
        ({
            let row = rows[i];
            let stream = row_streams(server, database, rows)[i];
            let prefix = "mysql://"@ + server + "/"@ + database + "?row="@;
            &&& row.len() > 0 ==> {
                &&& row[row.len() - 1] matches Some(text) ==> {
                    &&& hex_form(text) matches Some(bytes) ==> stream.bytes == bytes
                    &&& hex_form(text) is None ==> stream.bytes == encode_utf8(text)
                }
                &&& row[row.len() - 1] is None ==> stream.bytes == Seq::<u8>::empty()
                &&& row[0] matches Some(name) ==> stream.origin_uri == prefix + name
                &&& row[0] is None ==> stream.origin_uri == prefix + decimal_text(i as nat)
            }
            &&& row.len() == 0 ==> stream == (ArrivedView {
                origin_uri: prefix + decimal_text(i as nat),
                bytes: seq![],
            })
        }),
{
    assert(encode_utf8(Seq::<char>::empty()) =~= seq![]);
    hex_forms_are_these_three('X', seq![], Seq::empty());
    assert(carried(Seq::empty()) =~= seq![]);
    assert(Seq::<char>::empty() =~= seq![]);
}

/// A row of an id and a payload, as the default query gives it, is a Stream of
/// the payload under the id; and a row of one column is both.
pub proof fn rows_of_one_and_two_columns(
    server: Seq<char>,
    database: Seq<char>,
    id: Seq<char>,
    payload: Seq<char>,
)
    requires
        hex_form(payload) is None,
    ensures
        row_streams(server, database, seq![seq![Some(id), Some(payload)]]) == seq![
            (ArrivedView {
                origin_uri: "mysql://"@ + server + "/"@ + database + "?row="@ + id,
                bytes: encode_utf8(payload),
            }),
        ],
        row_streams(server, database, seq![seq![Some(payload)]]) == seq![
            (ArrivedView {
                origin_uri: "mysql://"@ + server + "/"@ + database + "?row="@ + payload,
                bytes: encode_utf8(payload),
            }),
        ],
        DEFAULT_QUERY@ == "SELECT id, payload FROM inbox ORDER BY id"@,
{
    let two = seq![seq![Some(id), Some(payload)]];
    let one = seq![seq![Some(payload)]];
    rows_carry_their_last_column(server, database, two, 0);
    rows_carry_their_last_column(server, database, one, 0);
    assert(row_streams(server, database, two) =~= seq![
        (ArrivedView {
            origin_uri: "mysql://"@ + server + "/"@ + database + "?row="@ + id,
            bytes: encode_utf8(payload),
        }),
    ]);
    assert(row_streams(server, database, one) =~= seq![
        (ArrivedView {
            origin_uri: "mysql://"@ + server + "/"@ + database + "?row="@ + payload,
            bytes: encode_utf8(payload),
        }),
    ]);
}

/// Parts with a slash between them.
pub open spec fn slashed(parts: Seq<Seq<char>>) -> Seq<char>
    decreases parts.len(),
{
    if parts.len() == 0 {
        seq![]
    } else if parts.len() == 1 {
        parts[0]
    } else {
        parts[0] + seq!['/'] + slashed(parts.drop_first())
    }
}

/// A path is its segments with a slash between them, and no segment has a
/// slash.
pub proof fn paths_are_their_segments(path: Seq<char>)
    ensures
        segments(path).len() > 0,
        slashed(segments(path)) == path,
        forall|i: int|
            0 <= i < segments(path).len() ==> !(#[trigger] segments(path)[i]).contains('/'),
    decreases path.len(),
{
    let end = crate::scan::before(path, '/') as int;
    crate::scan::before_found(path, '/');
    if end < path.len() {
        let first = path.take(end);
        let rest = path.skip(end + 1);
        paths_are_their_segments(rest);
        let parts = segments(path);
        assert(parts =~= seq![first] + segments(rest));
        assert(parts.drop_first() =~= segments(rest));
        assert(first + seq!['/'] + rest =~= path);
        assert forall|i: int| 0 <= i < parts.len() implies !(#[trigger] parts[i]).contains('/') by {
            if i > 0 {
                assert(parts[i] == segments(rest)[i - 1]);
            } else if first.contains('/') {
                let at = choose|at: int| 0 <= at < first.len() && first[at] == '/';
                assert(path[at] != '/');
            }
        }
    } else {
        assert(segments(path) =~= seq![path]);
        if path.contains('/') {
            let at = choose|at: int| 0 <= at < path.len() && path[at] == '/';
            assert(path[at] != '/');
        }
    }
}

/// Where a target names its peer: between either scheme and the next slash,
/// or before the first slash where it has a colon; otherwise the whole target
/// is a path on the configured server.
pub proof fn peers_stand_behind_a_scheme_or_have_a_port(
    server: Seq<char>,
    scheme: Seq<char>,
    peer: Seq<char>,
    path: Seq<char>,
    first: Seq<char>,
)
    requires
        scheme == "mysql://"@ || scheme == "mariadb://"@,
        !peer.contains('/'),
        !first.contains('/'),
        !first.contains(':'),
    ensures
        located(server, scheme + (peer + "/"@ + path)) == (peer, path),
        peer.contains(':') && !"mysql://"@.is_prefix_of(peer + "/"@ + path)
            && !"mariadb://"@.is_prefix_of(peer + "/"@ + path) ==> located(
            server,
            peer + "/"@ + path,
        ) == (peer, path),
        located(server, first + "/"@ + path) == (server, first + "/"@ + path),
        located(server, first) == (server, first),
{
    let after = peer + "/"@ + path;
    let target = scheme + after;
    assert(target.skip(scheme.len() as int) =~= after);
    assert(target.take(scheme.len() as int) =~= scheme);
    split_joined(peer, path);
    assert(after_scheme(scheme, target) == Some((peer, path)));
    if scheme == "mariadb://"@ {
        reveal_strlit("mysql://");
        reveal_strlit("mariadb://");
        assert(target[1] == 'a');
        assert(after_scheme("mysql://"@, target) is None);
    }
    split_joined(first, path);
    no_scheme(first, path);
    one_segment(first);
    no_scheme_alone(first);
}

/// A target without a slash opens with no scheme.
proof fn no_scheme_alone(text: Seq<char>)
    requires
        !text.contains('/'),
    ensures
        after_scheme("mysql://"@, text) is None,
        after_scheme("mariadb://"@, text) is None,
{
    reveal_strlit("mysql://");
    reveal_strlit("mariadb://");
    if "mysql://"@.is_prefix_of(text) {
        assert(text.take(8)[6] == '/');
        assert(text.contains(text[6]));
    }
    if "mariadb://"@.is_prefix_of(text) {
        assert(text.take(10)[8] == '/');
        assert(text.contains(text[8]));
    }
}

/// A path of three segments names the database, the table and the column, one
/// of two the table and the column of the configured database; any other is
/// refused for good, by the target.
pub proof fn paths_name_two_or_three(
    server: Seq<char>,
    database: Seq<char>,
    target: Seq<char>,
    peer: Seq<char>,
    path: Seq<char>,
)
    requires
        located(server, target) == (peer, path),
    ensures
        ({
            let parts = segments(path);
            let place = place_of(server, database, target);
            &&& parts.len() == 3 ==> place == Ok::<Place, Fault>(
                Place { server: peer, database: parts[0], table: parts[1], column: parts[2] },
            )
            &&& parts.len() == 2 ==> place == Ok::<Place, Fault>(
                Place { server: peer, database, table: parts[0], column: parts[1] },
            )
            &&& parts.len() != 2 && parts.len() != 3 ==> place == Err::<Place, Fault>(
                (Fault {
                    message: debug_text(target)
                        + " is not database/table/column or table/column"@,
                    retryable: false,
                }),
            )
        }),
{
}

} // verus!
