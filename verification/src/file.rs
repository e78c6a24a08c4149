//! The parsed view of a whole archive: its entries, their metadata, and the
//! trailing comment.

use vstd::prelude::*;

use vstd::string::StringSliceAdditionalSpecFns;

use crate::entry::{ZipEntry, ZipEntryMeta};

verus! {

/// An immutable store of data about a ZIP file.  The entries and their
/// metadata run in central directory order, side by side.
pub struct ZipFile {
    pub entries: Vec<ZipEntry>,
    pub metas: Vec<ZipEntryMeta>,
    pub comment: String,
}

/// The two parallel sequences stay the same length.
pub open spec fn zip_file_wf(f: ZipFile) -> bool {
    f.entries@.len() == f.metas@.len()
}

impl ZipFile {
    /// Returns a list of this ZIP file's entries.
    pub fn entries(&self) -> (r: &[ZipEntry])
        ensures
            r@ == self.entries@,
    {
        self.entries.as_slice()
    }

    /// Returns this ZIP file's trailing comment.
    pub fn comment(&self) -> (r: &str)
        ensures
            r@ == self.comment@,
    {
        self.comment.as_str()
    }
}

/// A builder for [`ZipFile`].
pub struct ZipFileBuilder(pub ZipFile);

/// A trait that extends [`ZipFile`]'s functionality.
pub trait ZipFileExt {
    /// Returns the entries whose filenames equal the one supplied, in the
    /// order they stand in the ZIP file.
    fn entries_with_filename<'a>(&'a self, filename: &str) -> (r: Vec<&'a ZipEntry>);
}

impl ZipFileExt for ZipFile {
    fn entries_with_filename<'a>(&'a self, filename: &str) -> (r: Vec<&'a ZipEntry>)
        ensures
            r@.map_values(|e: &ZipEntry| *e) == self.entries@.filter(
                |e: ZipEntry| e.filename@ == filename@,
            ),
    {
        let n: usize = self.entries.len();
        let mut r: Vec<&ZipEntry> = Vec::new();
        proof {
            reveal(Seq::filter);
            assert(self.entries@.take(0).filter(|e: ZipEntry| e.filename@ == filename@) =~= Seq::<
                ZipEntry,
            >::empty());
            assert(r@.map_values(|e: &ZipEntry| *e) =~= Seq::<ZipEntry>::empty());
        }
        let mut i: usize = 0;
        while i < n
            invariant
                i <= n,
                n == self.entries@.len(),
                r@.map_values(|e: &ZipEntry| *e) == self.entries@.take(i as int).filter(
                    |e: ZipEntry| e.filename@ == filename@,
                ),
            decreases n - i,
        {
            let entry = &self.entries[i];
            let ghost prev = r@;
            let ghost spred = |e: ZipEntry| e.filename@ == filename@;
            if crate::file::str_eq(entry.filename.as_str(), filename) {
                r.push(entry);
            }
            proof {
                reveal(Seq::filter);
                let taken = self.entries@.take(i + 1);
                assert(taken.drop_last() =~= self.entries@.take(i as int));
                assert(taken.last() == self.entries@[i as int]);
                if spred(self.entries@[i as int]) {
                    assert(r@ =~= prev.push(r@.last()));
                    assert(r@.map_values(|e: &ZipEntry| *e) =~= prev.map_values(|e: &ZipEntry| *e).push(
                        self.entries@[i as int],
                    ));
                } else {
                    assert(r@.map_values(|e: &ZipEntry| *e) =~= prev.map_values(|e: &ZipEntry| *e));
                }
            }
            i = i + 1;
        }
        proof {
            assert(self.entries@.take(n as int) =~= self.entries@);
        }
        r
    }
}

/// Whether two strings hold the same characters.
pub fn str_eq(a: &str, b: &str) -> (r: bool)
    ensures
        r == (a@ == b@),
{
    let av = a.as_bytes_vec();
    let bv = b.as_bytes_vec();
    let r = vec_u8_eq(&av, &bv);
    proof {
        if a@ == b@ {
            assert(a.spec_bytes() == b.spec_bytes());
        }
        if av@ == bv@ {
            vstd::utf8::encode_utf8_decode_utf8(a@);
            vstd::utf8::encode_utf8_decode_utf8(b@);
        }
    }
    r
}

/// Whether two byte vectors hold the same bytes.
pub fn vec_u8_eq(a: &Vec<u8>, b: &Vec<u8>) -> (r: bool)
    ensures
        r == (a@ == b@),
{
    if a.len() != b.len() {
        proof {
            assert(a@.len() != b@.len());
        }
        return false;
    }
    let n: usize = a.len();
    let mut i: usize = 0;
    while i < n
        invariant
            i <= n,
            n == a@.len(),
            n == b@.len(),
            forall|j: int| 0 <= j < i ==> a@[j] == b@[j],
        decreases n - i,
    {
        if a[i] != b[i] {
            return false;
        }
        i = i + 1;
    }
    proof {
        assert(a@ =~= b@);
    }
    true
}

/// A trait that extends [`ZipFileBuilder`]'s functionality.
pub trait ZipFileBuilderExt {

}

impl ZipFileBuilderExt for ZipFileBuilder {

}

} // verus!
