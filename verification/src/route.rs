use vstd::prelude::*;

verus! {

/// The decision a connection handler makes from the bytes it has read: serve
/// the index page, pause first and then serve it, or answer not-found.  The
/// handler's own reading and writing stay outside the pool's scope; only this
/// choice is the computation.
#[derive(Clone, Copy, PartialEq, Eq, Structural, Debug)]
pub enum Route {
    Index,
    SleepThenIndex,
    NotFound,
}

/// `p` stands at the front of `b`, byte for byte.
pub open spec fn is_prefix(p: Seq<u8>, b: Seq<u8>) -> bool {
    p.len() <= b.len() && b.subrange(0, p.len() as int) == p
}

/// The route chosen for a request `b`: the first of the two request-line
/// prefixes that matches wins, and anything else is not found.
pub open spec fn route_of(b: Seq<u8>, root: Seq<u8>, sleep: Seq<u8>) -> Route {
    if is_prefix(root, b) {
        Route::Index
    } else if is_prefix(sleep, b) {
        Route::SleepThenIndex
    } else {
        Route::NotFound
    }
}

/// Whether `prefix` stands at the front of `buf`.
pub fn starts_with(buf: &Vec<u8>, prefix: &Vec<u8>) -> (r: bool)
    ensures
        r == is_prefix(prefix@, buf@),
{
    if prefix.len() > buf.len() {
        return false;
    }
    let n = prefix.len();
    let mut i: usize = 0;
    while i < n
        invariant
            i <= n,
            n == prefix@.len(),
            n <= buf@.len(),
            forall|k: int| 0 <= k < i ==> buf@[k] == prefix@[k],
        decreases n - i,
    {
        if buf[i] != prefix[i] {
            assert(buf@.subrange(0, n as int)[i as int] != prefix@[i as int]);
            return false;
        }
        i = i + 1;
    }
    assert(buf@.subrange(0, n as int) =~= prefix@);
    true
}

/// Choose the route for the request bytes `buf`, given the two request-line
/// prefixes the handler distinguishes: the plain one and the pausing one.
pub fn route(buf: &Vec<u8>, root: &Vec<u8>, sleep: &Vec<u8>) -> (r: Route)
    ensures
        r == route_of(buf@, root@, sleep@),
{
    if starts_with(buf, root) {
        Route::Index
    } else if starts_with(buf, sleep) {
        Route::SleepThenIndex
    } else {
        Route::NotFound
    }
}

} // verus!
