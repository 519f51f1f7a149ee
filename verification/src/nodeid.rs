//! Nodeids: "directory/file.py::Class::test[id]".

use vstd::prelude::*;

use crate::text::{
    first_at_bounds, halves, head_of, not_parted, outer_halves, parted_at_first, parted_at_last,
    split, split_at_last, split_by, split_once, texts,
};

verus! {

/// The file part of a nodeid.
pub open spec fn file_part_of(nodeid: Seq<char>) -> Seq<char> {
    split_by(nodeid, "::"@)[0]
}

/// The last part of a nodeid: what follows the last "::".
pub open spec fn last_part_of(nodeid: Seq<char>) -> Seq<char> {
    match outer_halves(nodeid, "::"@) {
        Some((_, tail)) => tail,
        None => nodeid,
    }
}

/// The class of a nodeid with three parts or more, as "file::class".
pub open spec fn class_key_of(nodeid: Seq<char>) -> Option<Seq<char>> {
    match halves(nodeid, "::"@) {
        Some((file, rest)) => match halves(rest, "::"@) {
            Some((cls, _)) => Some(file + "::"@ + cls),
            None => None,
        },
        None => None,
    }
}

/// A text splits into at least one piece.
pub proof fn split_not_empty(s: Seq<char>, p: Seq<char>)
    ensures
        split_by(s, p).len() > 0,
{
}

/// The parts of a nodeid.
pub fn parts_of(nodeid: &str) -> (r: Vec<String>)
    ensures
        texts(r@) == split_by(nodeid@, "::"@),
        r@.len() > 0,
        r@[0]@ == file_part_of(nodeid@),
{
    proof {
        reveal_strlit("::");
    }
    let parts = split(nodeid, "::");
    proof {
        split_not_empty(nodeid@, "::"@);
        assert(texts(parts@).len() == parts@.len());
        assert(texts(parts@)[0] == parts@[0]@);
    }
    parts
}

/// The last part of a nodeid.
pub fn last_part(nodeid: &str) -> (r: String)
    ensures
        r@ == last_part_of(nodeid@),
{
    match split_at_last(nodeid, "::") {
        Some((_, tail)) => tail,
        None => nodeid.to_owned(),
    }
}

/// The class of a nodeid with three parts or more.
pub fn find_class_key(nodeid: &str) -> (r: Option<String>)
    ensures
        match r {
            Some(k) => class_key_of(nodeid@) == Some(k@),
            None => class_key_of(nodeid@) is None,
        },
{
    match split_once(nodeid, "::") {
        Some((file, rest)) => match split_once(rest.as_str(), "::") {
            Some((cls, _)) => {
                let mut key = file;
                key.append("::");
                key.append(cls.as_str());
                Some(key)
            },
            None => None,
        },
        None => None,
    }
}

/// The file of a nodeid is what stands before the first "::", and all of it where
/// there is none.
pub proof fn file_stands_before_the_rest(nodeid: Seq<char>)
    ensures
        file_part_of(nodeid) == head_of(nodeid, "::"@),
{
    reveal_strlit("::");
    first_at_bounds(nodeid, "::"@);
}

/// A nodeid of a file, a class and a test comes apart: the file stands first, the
/// test last, and the class is known by the file and its name. A nodeid without
/// a class has none.
pub proof fn nodeids_come_apart(file: Seq<char>, cls: Seq<char>, test: Seq<char>)
    requires
        !file.contains(':'),
        !cls.contains(':'),
        !test.contains(':'),
    ensures
        ({
            let in_class = file + "::"@ + (cls + "::"@ + test);
            let plain = file + "::"@ + test;
            &&& file_part_of(in_class) == file
            &&& file_part_of(plain) == file
            &&& file_part_of(file) == file
            &&& last_part_of(in_class) == test
            &&& last_part_of(plain) == test
            &&& class_key_of(in_class) == Some(file + "::"@ + cls)
            &&& class_key_of(plain) is None
            &&& class_key_of(file) is None
            &&& split_by(in_class, "::"@) == seq![file, cls, test]
            &&& split_by(plain, "::"@) == seq![file, test]
        }),
{
    reveal_strlit("::");
    let sep = "::"@;
    parted_at_first(file, sep, cls + sep + test);
    parted_at_first(file, sep, test);
    parted_at_first(cls, sep, test);
    not_parted(file, sep);
    not_parted(test, sep);
    parted_at_last(file, sep, test);
    assert(file + sep + (cls + sep + test) =~= (file + sep + cls) + sep + test);
    parted_at_last(file + sep + cls, sep, test);
    assert(seq![file] + (seq![cls] + seq![test]) =~= seq![file, cls, test]);
    assert(seq![file] + seq![test] =~= seq![file, test]);
}

} // verus!
