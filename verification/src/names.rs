//! Header names and tokens that the protocol rules compare against, as
//! ASCII codes.

use vstd::prelude::*;

verus! {

/// The header name `content-length`.
pub open spec fn content_length_bytes() -> Seq<u8> {
    seq![99u8, 111u8, 110u8, 116u8, 101u8, 110u8, 116u8, 45u8, 108u8, 101u8, 110u8, 103u8, 116u8, 104u8]
}

/// The bytes of `content_length_bytes`, to compare against at run time.
pub fn content_length() -> (r: Vec<u8>)
    ensures
        r@ == content_length_bytes(),
{
    let r = vec![99u8, 111u8, 110u8, 116u8, 101u8, 110u8, 116u8, 45u8, 108u8, 101u8, 110u8, 103u8, 116u8, 104u8];
    proof {
        assert(r@ =~= content_length_bytes());
    }
    r
}

/// The header name `transfer-encoding`.
pub open spec fn transfer_encoding_bytes() -> Seq<u8> {
    seq![116u8, 114u8, 97u8, 110u8, 115u8, 102u8, 101u8, 114u8, 45u8, 101u8, 110u8, 99u8, 111u8, 100u8, 105u8, 110u8, 103u8]
}

/// The bytes of `transfer_encoding_bytes`, to compare against at run time.
pub fn transfer_encoding() -> (r: Vec<u8>)
    ensures
        r@ == transfer_encoding_bytes(),
{
    let r = vec![116u8, 114u8, 97u8, 110u8, 115u8, 102u8, 101u8, 114u8, 45u8, 101u8, 110u8, 99u8, 111u8, 100u8, 105u8, 110u8, 103u8];
    proof {
        assert(r@ =~= transfer_encoding_bytes());
    }
    r
}

/// The header name `expect`.
pub open spec fn expect_bytes() -> Seq<u8> {
    seq![101u8, 120u8, 112u8, 101u8, 99u8, 116u8]
}

/// The bytes of `expect_bytes`, to compare against at run time.
pub fn expect() -> (r: Vec<u8>)
    ensures
        r@ == expect_bytes(),
{
    let r = vec![101u8, 120u8, 112u8, 101u8, 99u8, 116u8];
    proof {
        assert(r@ =~= expect_bytes());
    }
    r
}

/// The header name `connection`.
pub open spec fn connection_bytes() -> Seq<u8> {
    seq![99u8, 111u8, 110u8, 110u8, 101u8, 99u8, 116u8, 105u8, 111u8, 110u8]
}

/// The bytes of `connection_bytes`, to compare against at run time.
pub fn connection() -> (r: Vec<u8>)
    ensures
        r@ == connection_bytes(),
{
    let r = vec![99u8, 111u8, 110u8, 110u8, 101u8, 99u8, 116u8, 105u8, 111u8, 110u8];
    proof {
        assert(r@ =~= connection_bytes());
    }
    r
}

/// The transfer coding `chunked`.
pub open spec fn chunked_bytes() -> Seq<u8> {
    seq![99u8, 104u8, 117u8, 110u8, 107u8, 101u8, 100u8]
}

/// The bytes of `chunked_bytes`, to compare against at run time.
pub fn chunked() -> (r: Vec<u8>)
    ensures
        r@ == chunked_bytes(),
{
    let r = vec![99u8, 104u8, 117u8, 110u8, 107u8, 101u8, 100u8];
    proof {
        assert(r@ =~= chunked_bytes());
    }
    r
}

/// The connection option `close`.
pub open spec fn close_bytes() -> Seq<u8> {
    seq![99u8, 108u8, 111u8, 115u8, 101u8]
}

/// The bytes of `close_bytes`, to compare against at run time.
pub fn close() -> (r: Vec<u8>)
    ensures
        r@ == close_bytes(),
{
    let r = vec![99u8, 108u8, 111u8, 115u8, 101u8];
    proof {
        assert(r@ =~= close_bytes());
    }
    r
}

/// The expectation `100-continue`.
pub open spec fn continue_token_bytes() -> Seq<u8> {
    seq![49u8, 48u8, 48u8, 45u8, 99u8, 111u8, 110u8, 116u8, 105u8, 110u8, 117u8, 101u8]
}

/// The bytes of `continue_token_bytes`, to compare against at run time.
pub fn continue_token() -> (r: Vec<u8>)
    ensures
        r@ == continue_token_bytes(),
{
    let r = vec![49u8, 48u8, 48u8, 45u8, 99u8, 111u8, 110u8, 116u8, 105u8, 110u8, 117u8, 101u8];
    proof {
        assert(r@ =~= continue_token_bytes());
    }
    r
}

/// The method `GET`.
pub open spec fn get_bytes() -> Seq<u8> {
    seq![71u8, 69u8, 84u8]
}

/// The bytes of `get_bytes`, to compare against at run time.
pub fn get() -> (r: Vec<u8>)
    ensures
        r@ == get_bytes(),
{
    let r = vec![71u8, 69u8, 84u8];
    proof {
        assert(r@ =~= get_bytes());
    }
    r
}

/// The method `HEAD`.
pub open spec fn head_bytes() -> Seq<u8> {
    seq![72u8, 69u8, 65u8, 68u8]
}

/// The bytes of `head_bytes`, to compare against at run time.
pub fn head() -> (r: Vec<u8>)
    ensures
        r@ == head_bytes(),
{
    let r = vec![72u8, 69u8, 65u8, 68u8];
    proof {
        assert(r@ =~= head_bytes());
    }
    r
}

/// The interim response `HTTP/1.1 100 Continue`, with its empty header block.
pub open spec fn continue_line_bytes() -> Seq<u8> {
    seq![72u8, 84u8, 84u8, 80u8, 47u8, 49u8, 46u8, 49u8, 32u8, 49u8, 48u8, 48u8, 32u8, 67u8, 111u8, 110u8, 116u8, 105u8, 110u8, 117u8, 101u8, 13u8, 10u8, 13u8, 10u8]
}

/// The opening of a request's description, `<HTTP Request ` with its space.
pub open spec fn request_label_bytes() -> Seq<u8> {
    seq![60u8, 72u8, 84u8, 84u8, 80u8, 32u8, 82u8, 101u8, 113u8, 117u8, 101u8, 115u8, 116u8, 32u8]
}

/// The bytes of `request_label_bytes`, to compare against at run time.
pub fn request_label() -> (r: Vec<u8>)
    ensures
        r@ == request_label_bytes(),
{
    let r = vec![60u8, 72u8, 84u8, 84u8, 80u8, 32u8, 82u8, 101u8, 113u8, 117u8, 101u8, 115u8, 116u8, 32u8];
    proof {
        assert(r@ =~= request_label_bytes());
    }
    r
}

} // verus!
