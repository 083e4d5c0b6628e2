//! The wire protocol: two request shapes and one response shape, framed as
//! self-delimiting text lines over a byte stream.
//!
//! A frame is one line: a tag word, then the fields as space-separated
//! tokens, ended by a newline. Identifiers are hexadecimal and payloads
//! base64, so the fields are always tokens. Decoding accepts exactly the
//! well-formed frames: `decode_message` and `decode_response` return the
//! unique message a line encodes, or `None` on anything malformed, which a
//! peer treats as end of session.

use vstd::prelude::*;
use vstd::string::{StrSliceExecFns, StringExecFns};
use crate::text::{find_char, is_token_char, is_token_str, token};

verus! {

/// Request for the envelope stored under an identifier.
#[derive(Debug, PartialEq, Eq, Clone)]
pub struct Get {
    pub id: String,
}

/// Request to store an envelope under an identifier.
#[derive(Debug, PartialEq, Eq, Clone)]
pub struct Put {
    pub id: String,
    pub data: String,
}

/// The two request shapes a client can send.
#[derive(Debug, PartialEq, Eq, Clone)]
pub enum MessageType {
    Put(Put),
    Get(Get),
}

/// The store's answer to a `Get`: the envelope, or nothing when the
/// identifier is unknown.
#[derive(Debug, PartialEq, Eq, Clone)]
pub struct GetResponse {
    pub data: Option<String>,
}

/// The line body (without the ending newline) of a `Put` frame.
pub open spec fn put_body(id: Seq<char>, data: Seq<char>) -> Seq<char> {
    seq!['p', 'u', 't', ' '] + id + seq![' '] + data
}

/// The line body of a `Get` frame.
pub open spec fn get_body(id: Seq<char>) -> Seq<char> {
    seq!['g', 'e', 't', ' '] + id
}

/// The line body of a response frame.
pub open spec fn resp_body(g: GetResponse) -> Seq<char> {
    match g.data {
        Some(d) => seq!['s', 'o', 'm', 'e', ' '] + d@,
        None => seq!['n', 'o', 'n', 'e'],
    }
}

/// A message whose fields can stand between the separators.
pub open spec fn wf_message(m: MessageType) -> bool {
    match m {
        MessageType::Put(p) => token(p.id@) && token(p.data@),
        MessageType::Get(g) => token(g.id@),
    }
}

/// A response whose payload can stand after the tag word.
pub open spec fn wf_response(g: GetResponse) -> bool {
    match g.data {
        Some(d) => token(d@),
        None => true,
    }
}

/// The line body of a request frame.
pub open spec fn msg_body(m: MessageType) -> Seq<char> {
    match m {
        MessageType::Put(p) => put_body(p.id@, p.data@),
        MessageType::Get(g) => get_body(g.id@),
    }
}

/// Field-wise equality of two requests.
pub open spec fn msg_view_eq(a: MessageType, b: MessageType) -> bool {
    match (a, b) {
        (MessageType::Put(x), MessageType::Put(y)) => x.id@ == y.id@ && x.data@ == y.data@,
        (MessageType::Get(x), MessageType::Get(y)) => x.id@ == y.id@,
        _ => false,
    }
}

/// Field-wise equality of two responses.
pub open spec fn resp_view_eq(a: GetResponse, b: GetResponse) -> bool {
    match (a.data, b.data) {
        (Some(x), Some(y)) => x@ == y@,
        (None, None) => true,
        _ => false,
    }
}

/// Frames a request as one line, newline included.
pub fn encode_message(m: &MessageType) -> (r: String)
    requires
        wf_message(*m),
    ensures
        r@ == msg_body(*m) + seq!['\n'],
{
    proof {
        reveal_strlit("put ");
        reveal_strlit("get ");
        reveal_strlit(" ");
        reveal_strlit("\n");
    }
    match m {
        MessageType::Put(p) => {
            let mut s = "put ".to_owned();
            s.append(p.id.as_str());
            s.append(" ");
            s.append(p.data.as_str());
            s.append("\n");
            proof {
                assert(s@ =~= msg_body(*m) + seq!['\n']);
            }
            s
        },
        MessageType::Get(g) => {
            let mut s = "get ".to_owned();
            s.append(g.id.as_str());
            s.append("\n");
            proof {
                assert(s@ =~= msg_body(*m) + seq!['\n']);
            }
            s
        },
    }
}

/// Frames a response as one line, newline included.
pub fn encode_response(g: &GetResponse) -> (r: String)
    requires
        wf_response(*g),
    ensures
        r@ == resp_body(*g) + seq!['\n'],
{
    proof {
        reveal_strlit("some ");
        reveal_strlit("none");
        reveal_strlit("\n");
    }
    match &g.data {
        Some(d) => {
            let mut s = "some ".to_owned();
            s.append(d.as_str());
            s.append("\n");
            proof {
                assert(s@ =~= resp_body(*g) + seq!['\n']);
            }
            s
        },
        None => {
            let mut s = "none".to_owned();
            s.append("\n");
            proof {
                assert(s@ =~= resp_body(*g) + seq!['\n']);
            }
            s
        },
    }
}

/// In a `Put` body, the first space at or after the identifier start is
/// exactly the separator, so the split is unique.
proof fn lemma_put_sep(line: Seq<char>, x: Put, i: int)
    requires
        line == put_body(x.id@, x.data@),
        token(x.id@),
        4 <= i < line.len(),
        line[i] == ' ',
        forall|j: int| 4 <= j < i ==> line[j] != ' ',
    ensures
        i == 4 + x.id@.len(),
        x.id@ == line.subrange(4, i),
        x.data@ == line.subrange(i + 1, line.len() as int),
{
    let idlen = x.id@.len() as int;
    assert(line.len() == 5 + idlen + x.data@.len());
    assert(line[4 + idlen] == ' ');
    if i < 4 + idlen {
        assert(line[i] == x.id@[i - 4]);
        assert(is_token_char(x.id@[i - 4]));
        assert(false);
    }
    if i > 4 + idlen {
        assert(line[4 + idlen] != ' ');
        assert(false);
    }
    assert forall|k: int| 0 <= k < idlen implies x.id@[k] == line.subrange(4, i)[k] by {
        assert(line[4 + k] == x.id@[k]);
    }
    assert(x.id@ =~= line.subrange(4, i));
    assert forall|k: int| 0 <= k < x.data@.len() implies x.data@[k] == line.subrange(
        i + 1,
        line.len() as int,
    )[k] by {
        assert(line[i + 1 + k] == x.data@[k]);
    }
    assert(x.data@ =~= line.subrange(i + 1, line.len() as int));
}

/// Parses one request line (without its newline). Returns the unique
/// well-formed request whose body the line is, and `None` on any other line.
pub fn decode_message(line: &str) -> (r: Option<MessageType>)
    ensures
        r matches Some(m) ==> wf_message(m) && line@ == msg_body(m),
        forall|m: MessageType|
            wf_message(m) && line@ == #[trigger] msg_body(m) ==> (r matches Some(m2)
                && msg_view_eq(m2, m)),
{
    let n = line.unicode_len();
    if n >= 4 && line.get_char(0) == 'p' && line.get_char(1) == 'u' && line.get_char(2) == 't'
        && line.get_char(3) == ' ' {
        match find_char(line, ' ', 4) {
            Some(i) => {
                let id = line.substring_char(4, i).to_owned();
                let data = line.substring_char(i + 1, n).to_owned();
                if is_token_str(id.as_str()) && is_token_str(data.as_str()) {
                    proof {
                        assert forall|k: int| 0 <= k < n implies put_body(id@, data@)[k]
                            == line@[k] by {
                            if 4 <= k < i {
                                assert(put_body(id@, data@)[k] == id@[k - 4]);
                            } else if k > i {
                                assert(put_body(id@, data@)[k] == data@[k - i - 1]);
                            }
                        }
                        assert(line@ =~= put_body(id@, data@));
                        assert forall|m: MessageType|
                            wf_message(m) && line@ == #[trigger] msg_body(m) implies (m matches
                        MessageType::Put(x) && x.id@ == id@ && x.data@ == data@) by {
                            match m {
                                MessageType::Put(x) => {
                                    lemma_put_sep(line@, x, i as int);
                                },
                                MessageType::Get(x) => {
                                    assert(line@[0] == 'g');
                                    assert(false);
                                },
                            }
                        }
                    }
                    Some(MessageType::Put(Put { id, data }))
                } else {
                    proof {
                        assert forall|m: MessageType|
                            wf_message(m) && line@ == #[trigger] msg_body(m) implies false by {
                            match m {
                                MessageType::Put(x) => {
                                    lemma_put_sep(line@, x, i as int);
                                },
                                MessageType::Get(x) => {
                                    assert(line@[0] == 'g');
                                    assert(false);
                                },
                            }
                        }
                    }
                    None
                }
            },
            None => {
                proof {
                    assert forall|m: MessageType|
                        wf_message(m) && line@ == #[trigger] msg_body(m) implies false by {
                        match m {
                            MessageType::Put(x) => {
                                assert(line@[4 + x.id@.len() as int] == ' ');
                                assert(false);
                            },
                            MessageType::Get(x) => {
                                assert(line@[0] == 'g');
                                assert(false);
                            },
                        }
                    }
                }
                None
            },
        }
    } else if n >= 4 && line.get_char(0) == 'g' && line.get_char(1) == 'e' && line.get_char(2)
        == 't' && line.get_char(3) == ' ' {
        let id = line.substring_char(4, n).to_owned();
        if is_token_str(id.as_str()) {
            proof {
                assert forall|k: int| 0 <= k < n implies get_body(id@)[k] == line@[k] by {
                    if k >= 4 {
                        assert(get_body(id@)[k] == id@[k - 4]);
                    }
                }
                assert(line@ =~= get_body(id@));
                assert forall|m: MessageType|
                    wf_message(m) && line@ == #[trigger] msg_body(m) implies (m matches
                MessageType::Get(x) && x.id@ == id@) by {
                    match m {
                        MessageType::Put(x) => {
                            assert(line@[0] == 'p');
                            assert(false);
                        },
                        MessageType::Get(x) => {
                            assert(x.id@ =~= line@.subrange(4, n as int));
                        },
                    }
                }
            }
            Some(MessageType::Get(Get { id }))
        } else {
            proof {
                assert forall|m: MessageType|
                    wf_message(m) && line@ == #[trigger] msg_body(m) implies false by {
                    match m {
                        MessageType::Put(x) => {
                            assert(line@[0] == 'p');
                            assert(false);
                        },
                        MessageType::Get(x) => {
                            assert(x.id@ =~= line@.subrange(4, n as int));
                            assert(false);
                        },
                    }
                }
            }
            None
        }
    } else {
        proof {
            assert forall|m: MessageType| wf_message(m) && line@ == #[trigger] msg_body(m)
                implies false by {
                match m {
                    MessageType::Put(x) => {
                        assert(line@[0] == 'p' && line@[1] == 'u' && line@[2] == 't' && line@[3]
                            == ' ');
                        assert(line@.len() >= 5);
                        assert(false);
                    },
                    MessageType::Get(x) => {
                        assert(line@[0] == 'g' && line@[1] == 'e' && line@[2] == 't' && line@[3]
                            == ' ');
                        assert(line@.len() >= 4);
                        assert(false);
                    },
                }
            }
        }
        None
    }
}

/// Parses one response line (without its newline). Returns the unique
/// well-formed response whose body the line is, and `None` on any other line.
pub fn decode_response(line: &str) -> (r: Option<GetResponse>)
    ensures
        r matches Some(g) ==> wf_response(g) && line@ == resp_body(g),
        forall|g: GetResponse|
            wf_response(g) && line@ == #[trigger] resp_body(g) ==> (r matches Some(g2)
                && resp_view_eq(g2, g)),
{
    let n = line.unicode_len();
    if n >= 5 && line.get_char(0) == 's' && line.get_char(1) == 'o' && line.get_char(2) == 'm'
        && line.get_char(3) == 'e' && line.get_char(4) == ' ' {
        let data = line.substring_char(5, n).to_owned();
        if is_token_str(data.as_str()) {
            proof {
                let body = resp_body(GetResponse { data: Some(data) });
                assert forall|k: int| 0 <= k < n implies body[k] == line@[k] by {
                    if k >= 5 {
                        assert(body[k] == data@[k - 5]);
                    }
                }
                assert(line@ =~= body);
                assert forall|g: GetResponse|
                    wf_response(g) && line@ == #[trigger] resp_body(g) implies (g.data matches Some(
                    d,
                ) && d@ == data@) by {
                    match g.data {
                        Some(d) => {
                            assert(d@ =~= line@.subrange(5, n as int));
                        },
                        None => {
                            assert(line@[0] == 'n');
                            assert(false);
                        },
                    }
                }
            }
            Some(GetResponse { data: Some(data) })
        } else {
            proof {
                assert forall|g: GetResponse|
                    wf_response(g) && line@ == #[trigger] resp_body(g) implies false by {
                    match g.data {
                        Some(d) => {
                            assert(d@ =~= line@.subrange(5, n as int));
                            assert(false);
                        },
                        None => {
                            assert(line@[0] == 'n');
                            assert(false);
                        },
                    }
                }
            }
            None
        }
    } else if n == 4 && line.get_char(0) == 'n' && line.get_char(1) == 'o' && line.get_char(2)
        == 'n' && line.get_char(3) == 'e' {
        proof {
            assert(line@ =~= resp_body(GetResponse { data: None }));
            assert forall|g: GetResponse|
                wf_response(g) && line@ == #[trigger] resp_body(g) implies g.data is None by {
                match g.data {
                    Some(d) => {
                        assert(line@[0] == 's');
                        assert(false);
                    },
                    None => {},
                }
            }
        }
        Some(GetResponse { data: None })
    } else {
        proof {
            assert forall|g: GetResponse| wf_response(g) && line@ == #[trigger] resp_body(g)
                implies false by {
                match g.data {
                    Some(d) => {
                        assert(line@[0] == 's' && line@[1] == 'o' && line@[2] == 'm' && line@[3]
                            == 'e' && line@[4] == ' ');
                        assert(line@.len() >= 5);
                        assert(false);
                    },
                    None => {
                        assert(line@[0] == 'n' && line@[1] == 'o' && line@[2] == 'n' && line@[3]
                            == 'e');
                        assert(line@.len() == 4);
                        assert(false);
                    },
                }
            }
        }
        None
    }
}

} // verus!
