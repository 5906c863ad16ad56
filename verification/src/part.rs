//! Part descriptors: the metadata of one discovered part — optional
//! field name, optional file name, optional declared content type —
//! derived from its tokenized header block.

use vstd::prelude::*;

use crate::disposition::{disp_lookup, opt_view, parse_content_disposition};
use crate::headers::{map_lookup, HeaderMap};
use crate::scan::lower_spec;

verus! {

/// The bytes of `"content-type"`.
pub open spec fn content_type_key() -> Seq<u8> {
    seq![99u8, 111u8, 110u8, 116u8, 101u8, 110u8, 116u8, 45u8, 116u8, 121u8, 112u8, 101u8]
}

/// The bytes of `"content-disposition"`.
pub open spec fn content_disposition_key() -> Seq<u8> {
    seq![
        99u8, 111u8, 110u8, 116u8, 101u8, 110u8, 116u8, 45u8, 100u8, 105u8, 115u8, 112u8, 111u8,
        115u8, 105u8, 116u8, 105u8, 111u8, 110u8,
    ]
}

/// The bytes of `"name"`.
pub open spec fn name_key() -> Seq<u8> {
    seq![110u8, 97u8, 109u8, 101u8]
}

/// The bytes of `"filename"`.
pub open spec fn filename_key() -> Seq<u8> {
    seq![102u8, 105u8, 108u8, 101u8, 110u8, 97u8, 109u8, 101u8]
}

/// The disposition parameter `k` of header map `m`: present only when
/// a Content-Disposition header exists and assigns `k` a real value.
pub open spec fn file_param(m: Seq<(Seq<u8>, Seq<u8>)>, k: Seq<u8>) -> Option<Seq<u8>> {
    match map_lookup(m, content_disposition_key()) {
        None => None,
        Some(d) => match disp_lookup(d, k) {
            Some(inner) => inner,
            None => None,
        },
    }
}

/// Mathematical model of a part descriptor.
#[verifier::ext_equal]
pub ghost struct FileModel {
    pub name: Option<Seq<u8>>,
    pub filename: Option<Seq<u8>>,
    pub content_type: Option<Seq<u8>>,
}

/// The descriptor that a tokenized header block determines.
pub open spec fn file_of(m: Seq<(Seq<u8>, Seq<u8>)>) -> FileModel {
    FileModel {
        name: file_param(m, name_key()),
        filename: file_param(m, filename_key()),
        content_type: map_lookup(m, content_type_key()),
    }
}

/// One discovered part: its field name, file name and declared
/// content type, each absent when the headers do not carry it.
pub struct MultipartFile {
    pub name: Option<Vec<u8>>,
    pub filename: Option<Vec<u8>>,
    pub content_type: Option<Vec<u8>>,
}

impl View for MultipartFile {
    type V = FileModel;

    open spec fn view(&self) -> FileModel {
        FileModel {
            name: opt_view(self.name),
            filename: opt_view(self.filename),
            content_type: opt_view(self.content_type),
        }
    }
}

fn content_type_key_vec() -> (r: Vec<u8>)
    ensures
        r@ == content_type_key(),
{
    let mut v: Vec<u8> = Vec::new();
    v.push(99);
    v.push(111);
    v.push(110);
    v.push(116);
    v.push(101);
    v.push(110);
    v.push(116);
    v.push(45);
    v.push(116);
    v.push(121);
    v.push(112);
    v.push(101);
    proof {
        assert(v@ =~= content_type_key());
    }
    v
}

fn content_disposition_key_vec() -> (r: Vec<u8>)
    ensures
        r@ == content_disposition_key(),
{
    let mut v: Vec<u8> = Vec::new();
    v.push(99);
    v.push(111);
    v.push(110);
    v.push(116);
    v.push(101);
    v.push(110);
    v.push(116);
    v.push(45);
    v.push(100);
    v.push(105);
    v.push(115);
    v.push(112);
    v.push(111);
    v.push(115);
    v.push(105);
    v.push(116);
    v.push(105);
    v.push(111);
    v.push(110);
    proof {
        assert(v@ =~= content_disposition_key());
    }
    v
}

fn name_key_vec() -> (r: Vec<u8>)
    ensures
        r@ == name_key(),
{
    let mut v: Vec<u8> = Vec::new();
    v.push(110);
    v.push(97);
    v.push(109);
    v.push(101);
    proof {
        assert(v@ =~= name_key());
    }
    v
}

fn filename_key_vec() -> (r: Vec<u8>)
    ensures
        r@ == filename_key(),
{
    let mut v: Vec<u8> = Vec::new();
    v.push(102);
    v.push(105);
    v.push(108);
    v.push(101);
    v.push(110);
    v.push(97);
    v.push(109);
    v.push(101);
    proof {
        assert(v@ =~= filename_key());
    }
    v
}

impl MultipartFile {
    /// Build the descriptor that a tokenized header block determines:
    /// the declared content type, and the `name` and `filename`
    /// parameters of the Content-Disposition header.
    pub fn from_headers(h: &HeaderMap) -> (r: MultipartFile)
        ensures
            r@ == file_of(h@),
    {
        let ctk = content_type_key_vec();
        let cdk = content_disposition_key_vec();
        proof {
            assert(lower_spec(ctk@) =~= content_type_key());
            assert(lower_spec(cdk@) =~= content_disposition_key());
        }
        let content_type = h.get(ctk.as_slice());
        let mut name: Option<Vec<u8>> = None;
        let mut filename: Option<Vec<u8>> = None;
        match h.get(cdk.as_slice()) {
            None => {},
            Some(d) => {
                let params = parse_content_disposition(d.as_slice());
                let nk = name_key_vec();
                let fk = filename_key_vec();
                match params.get(nk.as_slice()) {
                    Some(Some(v)) => {
                        name = Some(v);
                    },
                    _ => {},
                }
                match params.get(fk.as_slice()) {
                    Some(Some(v)) => {
                        filename = Some(v);
                    },
                    _ => {},
                }
            },
        }
        MultipartFile { name, filename, content_type }
    }
}

} // verus!
