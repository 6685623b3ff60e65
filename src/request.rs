use vstd::prelude::*;
use crate::error::ServeError;

verus! {

broadcast use vstd::string::axiom_spec_iter;

/// Bytes taken from a connection in its one read of the request.
pub const REQUEST_BUFFER_SIZE: usize = 512;

/// Largest request accepted as a file name, in bytes.
pub const MAX_REQUEST_SIZE: usize = 500;

/// `s` holds a `/`, or two `.` in a row: as a file name it could reach
/// outside the served root.
pub open spec fn has_traversal(s: Seq<char>) -> bool {
    exists|i: int|
        0 <= i < s.len() && (#[trigger] s[i] == '/' || (i + 1 < s.len() && s[i] == '.' && s[i
            + 1] == '.'))
}

/// Tells whether `name` is free of `/` and of `..`.
pub fn is_safe_name(name: &str) -> (r: bool)
    ensures
        r == !has_traversal(name@),
{
    let mut safe = true;
    let mut prev_dot = false;
    for c in it: name.chars()
        invariant
            it.seq() == name@,
            0 <= it.index() <= name@.len(),
            safe == !has_traversal(name@.take(it.index() as int)),
            prev_dot == (it.index() > 0 && name@[it.index() - 1] == '.'),
    {
        let ghost k = it.index() as int;
        let ghost before = name@.take(k);
        let ghost after = name@.take(k + 1);
        assert(c == name@[k]);
        if c == '/' || (prev_dot && c == '.') {
            if c == '/' {
                assert(after[k] == '/');
            } else {
                assert(after[k - 1] == '.' && after[k] == '.');
            }
            safe = false;
        } else {
            assert(has_traversal(after) ==> has_traversal(before)) by {
                if has_traversal(after) {
                    let i = choose|i: int|
                        0 <= i < after.len() && (#[trigger] after[i] == '/' || (i + 1 < after.len()
                            && after[i] == '.' && after[i + 1] == '.'));
                    assert(before[i] == after[i]);
                    if i + 1 < before.len() {
                        assert(before[i + 1] == after[i + 1]);
                    }
                }
            }
            assert(has_traversal(before) ==> has_traversal(after)) by {
                if has_traversal(before) {
                    let i = choose|i: int|
                        0 <= i < before.len() && (#[trigger] before[i] == '/' || (i + 1
                            < before.len() && before[i] == '.' && before[i + 1] == '.'));
                    assert(before[i] == after[i]);
                    if i + 1 < before.len() {
                        assert(before[i + 1] == after[i + 1]);
                    }
                }
            }
        }
        prev_dot = c == '.';
    }
    assert(name@.take(name@.len() as int) =~= name@);
    safe
}

} // verus!

verus! {

/// The text that `String::from_utf8_lossy` makes of the bytes `b`.
pub uninterp spec fn lossy_utf8(b: Seq<u8>) -> Seq<char>;

/// Relies on `String::from_utf8_lossy`: the text depends on the bytes alone,
/// and bytes that are valid UTF-8 give exactly the characters they encode.
#[verifier::external_body]
fn decode_lossy(b: &[u8]) -> (r: String)
    ensures
        r@ == lossy_utf8(b@),
        vstd::utf8::valid_utf8(b@) ==> r@ == vstd::utf8::decode_utf8(b@),
{
    String::from_utf8_lossy(b).into_owned()
}

/// Accepts `name` as a file name, or refuses it when it holds `/` or `..`.
pub fn check_name(name: String) -> (r: Result<String, ServeError>)
    ensures
        !has_traversal(name@) <==> r is Ok,
        r matches Ok(n) ==> n@ == name@,
        r matches Err(e) ==> (e matches ServeError::InvalidFile(m) && m@ == name@),
{
    if is_safe_name(name.as_str()) {
        Ok(name)
    } else {
        Err(ServeError::InvalidFile(name))
    }
}

/// Reads the bytes of a request as a file name: refused when there are more
/// than `MAX_REQUEST_SIZE` of them, else decoded (invalid UTF-8 replaced) and
/// checked by `check_name`.
pub fn parse_request(received: &[u8]) -> (r: Result<String, ServeError>)
    ensures
        received@.len() > MAX_REQUEST_SIZE ==> (r matches Err(ServeError::TooLarge(n)) && n
            == received@.len()),
        received@.len() <= MAX_REQUEST_SIZE ==> {
            &&& !has_traversal(lossy_utf8(received@)) <==> r is Ok
            &&& r matches Ok(n) ==> n@ == lossy_utf8(received@)
            &&& r matches Err(e) ==> (e matches ServeError::InvalidFile(m) && m@ == lossy_utf8(
                received@,
            ))
        },
{
    if received.len() > MAX_REQUEST_SIZE {
        return Err(ServeError::TooLarge(received.len()));
    }
    let name = decode_lossy(received);
    check_name(name)
}

/// The path that `Path::join` makes of `root` and `name`, as text.
pub uninterp spec fn joined_path(root: Seq<char>, name: Seq<char>) -> Seq<char>;

/// Relies on `Path::join`: the joined path depends on its two parts alone;
/// the result is turned back into text, which it already is.
#[verifier::external_body]
fn join_path(root: &str, name: &str) -> (r: String)
    ensures
        r@ == joined_path(root@, name@),
{
    std::path::Path::new(root).join(name).to_string_lossy().into_owned()
}

/// The location of the file `name` under the served root `root`. The name is
/// not checked here: that is `check_name`'s work.
pub fn resolve(root: &str, name: &str) -> (r: String)
    ensures
        r@ == joined_path(root@, name@),
{
    join_path(root, name)
}

/// Turns a request into the path of the file to send, under the served root:
/// the request's name as `parse_request` reads it, joined to `root`, or the
/// error that refuses it. No refused request gives a path.
pub fn locate(root: &str, received: &[u8]) -> (r: Result<String, ServeError>)
    ensures
        received@.len() > MAX_REQUEST_SIZE ==> (r matches Err(ServeError::TooLarge(n)) && n
            == received@.len()),
        received@.len() <= MAX_REQUEST_SIZE ==> {
            &&& !has_traversal(lossy_utf8(received@)) <==> r is Ok
            &&& r matches Ok(p) ==> p@ == joined_path(root@, lossy_utf8(received@))
            &&& r matches Err(e) ==> (e matches ServeError::InvalidFile(m) && m@ == lossy_utf8(
                received@,
            ))
        },
{
    match parse_request(received) {
        Ok(name) => Ok(resolve(root, name.as_str())),
        Err(e) => Err(e),
    }
}

} // verus!
