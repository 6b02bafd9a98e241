//! A named record with two counters, built in the builder style and shown
//! as `name:<name> size:<size> count:<count>`.

use crate::text::{digits, push_digits, push_str, string_of_chars};
use vstd::prelude::*;

verus! {

pub struct Node {
    name: String,
    size: u32,
    count: u32,
}

/// The text form of a node with the given name and counters.
pub open spec fn node_text(name: Seq<char>, size: nat, count: nat) -> Seq<char> {
    "name:"@ + name + " size:"@ + digits(size) + " count:"@ + digits(count)
}

impl Node {
    pub closed spec fn spec_name(&self) -> Seq<char> {
        self.name@
    }

    pub closed spec fn spec_size(&self) -> nat {
        self.size as nat
    }

    pub closed spec fn spec_count(&self) -> nat {
        self.count as nat
    }

    /// A node called `name` with both counters at zero.
    pub fn new(name: String) -> (r: Node)
        ensures
            r.spec_name() == name@,
            r.spec_size() == 0,
            r.spec_count() == 0,
    {
        Node { name, size: 0, count: 0 }
    }

    /// The same node with its size set to `s`.
    pub fn size(self, s: u32) -> (r: Self)
        ensures
            r.spec_name() == self.spec_name(),
            r.spec_size() == s,
            r.spec_count() == self.spec_count(),
    {
        Node { size: s, ..self }
    }

    /// The same node with its count set to `c`.
    pub fn count(self, c: u32) -> (r: Self)
        ensures
            r.spec_name() == self.spec_name(),
            r.spec_size() == self.spec_size(),
            r.spec_count() == c,
    {
        Node { count: c, ..self }
    }

    /// `name:<name> size:<size> count:<count>`.
    pub fn to_string(&self) -> (r: String)
        ensures
            r@ == node_text(self.spec_name(), self.spec_size(), self.spec_count()),
    {
        let mut out: Vec<char> = Vec::new();
        push_str(&mut out, "name:");
        push_str(&mut out, self.name.as_str());
        push_str(&mut out, " size:");
        push_digits(&mut out, self.size);
        push_str(&mut out, " count:");
        push_digits(&mut out, self.count);
        proof {
            reveal_strlit("name:");
            reveal_strlit(" size:");
            reveal_strlit(" count:");
        }
        string_of_chars(&out)
    }

    /// Adds one to the size.
    pub fn grow(&mut self)
        requires
            old(self).spec_size() < u32::MAX,
        ensures
            final(self).spec_size() == old(self).spec_size() + 1,
            final(self).spec_name() == old(self).spec_name(),
            final(self).spec_count() == old(self).spec_count(),
    {
        self.size += 1;
    }

    /// Adds one to the count.
    pub fn inc(&mut self)
        requires
            old(self).spec_count() < u32::MAX,
        ensures
            final(self).spec_count() == old(self).spec_count() + 1,
            final(self).spec_name() == old(self).spec_name(),
            final(self).spec_size() == old(self).spec_size(),
    {
        self.count += 1;
    }
}

} // verus!
