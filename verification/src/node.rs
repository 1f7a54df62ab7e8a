//! Analyzer output as plain values: node categories and nodes.

use vstd::prelude::*;
use vstd::std_specs::convert::TryFromSpecImpl;

verus! {

/// Category code of an ordinary node, found in the dictionary.
pub const MECAB_NOR_NODE: u8 = 0;

/// Category code of a node for a word the dictionary does not know.
pub const MECAB_UNK_NODE: u8 = 1;

/// Category code of the virtual node that opens a sentence.
pub const MECAB_BOS_NODE: u8 = 2;

/// Category code of the virtual node that closes a sentence.
pub const MECAB_EOS_NODE: u8 = 3;

/// Category code of the virtual node that closes an N-best enumeration.
pub const MECAB_EON_NODE: u8 = 4;

/// Category of an analyzer node.
#[allow(clippy::upper_case_acronyms)]
#[derive(Clone, Copy, Debug, PartialEq, Eq, Structural)]
pub enum NodeStat {
    /// Ordinary word.
    NOR,
    /// Unknown word.
    UNK,
    /// Sentence begin.
    BOS,
    /// Sentence end.
    EOS,
    /// End of an N-best enumeration.
    EON,
}

impl NodeStat {
    /// The category that a raw code stands for; a code outside the five known
    /// ones is handed back as the error.
    pub open spec fn of_code(value: u8) -> Result<NodeStat, u8> {
        if value == MECAB_NOR_NODE {
            Ok(NodeStat::NOR)
        } else if value == MECAB_UNK_NODE {
            Ok(NodeStat::UNK)
        } else if value == MECAB_BOS_NODE {
            Ok(NodeStat::BOS)
        } else if value == MECAB_EOS_NODE {
            Ok(NodeStat::EOS)
        } else if value == MECAB_EON_NODE {
            Ok(NodeStat::EON)
        } else {
            Err(value)
        }
    }

    /// A boundary node marks where a sentence begins or ends. It stands for no
    /// text of the document.
    pub open spec fn spec_is_boundary(self) -> bool {
        self == NodeStat::BOS || self == NodeStat::EOS
    }

    /// The analyzer's own name for a category.
    pub open spec fn spec_name(self) -> Seq<char> {
        match self {
            NodeStat::NOR => "MECAB_NOR_NODE"@,
            NodeStat::UNK => "MECAB_UNK_NODE"@,
            NodeStat::BOS => "MECAB_BOS_NODE"@,
            NodeStat::EOS => "MECAB_EOS_NODE"@,
            NodeStat::EON => "MECAB_EON_NODE"@,
        }
    }

    /// The analyzer's own name for this category, as diagnostics show it.
    pub fn name(self) -> (name: &'static str)
        ensures
            name@ == self.spec_name(),
    {
        match self {
            NodeStat::NOR => "MECAB_NOR_NODE",
            NodeStat::UNK => "MECAB_UNK_NODE",
            NodeStat::BOS => "MECAB_BOS_NODE",
            NodeStat::EOS => "MECAB_EOS_NODE",
            NodeStat::EON => "MECAB_EON_NODE",
        }
    }

    /// Whether this is a sentence-begin or sentence-end category.
    pub fn is_boundary(self) -> (b: bool)
        ensures
            b == self.spec_is_boundary(),
    {
        match self {
            NodeStat::BOS | NodeStat::EOS => true,
            _ => false,
        }
    }
}

impl TryFrom<u8> for NodeStat {
    type Error = u8;

    fn try_from(value: u8) -> (stat: Result<Self, u8>) {
        if value == MECAB_NOR_NODE {
            Ok(NodeStat::NOR)
        } else if value == MECAB_UNK_NODE {
            Ok(NodeStat::UNK)
        } else if value == MECAB_BOS_NODE {
            Ok(NodeStat::BOS)
        } else if value == MECAB_EOS_NODE {
            Ok(NodeStat::EOS)
        } else if value == MECAB_EON_NODE {
            Ok(NodeStat::EON)
        } else {
            Err(value)
        }
    }
}

impl TryFromSpecImpl<u8> for NodeStat {
    open spec fn obeys_try_from_spec() -> bool {
        true
    }

    open spec fn try_from_spec(v: u8) -> Result<Self, u8> {
        NodeStat::of_code(v)
    }
}

/// One segment of the analyzer's output, copied out of the analyzer's memory.
#[derive(Debug, PartialEq, Eq)]
pub struct MorphNode {
    /// Category of the node.
    pub stat: NodeStat,
    /// The bytes found where the node's surface begins. They need not end
    /// where the node ends: only the first `length` of them belong to it.
    pub surface: Vec<u8>,
    /// Number of bytes of the document that the node covers.
    pub length: u16,
    /// The analyzer's description of the node. It serves diagnostics only.
    pub feature: String,
}

impl Clone for MorphNode {
    /// A node of the same category, surface, length and description.
    fn clone(&self) -> (copy: Self)
        ensures
            copy.stat == self.stat,
            copy.surface@ == self.surface@,
            copy.length == self.length,
            copy.feature@ == self.feature@,
    {
        MorphNode {
            stat: self.stat,
            surface: self.surface.clone(),
            length: self.length,
            feature: self.feature.clone(),
        }
    }
}

impl MorphNode {
    /// A node becomes a token unless it is a sentence boundary.
    pub open spec fn spec_is_token(self) -> bool {
        !self.stat.spec_is_boundary()
    }

    /// The bytes of the document that the node covers: the first `length`
    /// bytes of its surface.
    pub open spec fn spec_token_bytes(self) -> Seq<u8> {
        self.surface@.take(self.length as int)
    }

    /// Whether the surface holds as many bytes as the node covers.
    pub open spec fn spec_has_surface(self) -> bool {
        self.length as int <= self.surface@.len()
    }

    /// Whether this node becomes a token.
    pub fn is_token(&self) -> (b: bool)
        ensures
            b == self.spec_is_token(),
    {
        !self.stat.is_boundary()
    }

    /// Whether the surface holds as many bytes as the node covers.
    pub fn has_surface(&self) -> (b: bool)
        ensures
            b == self.spec_has_surface(),
    {
        self.length as usize <= self.surface.len()
    }

    /// Copies the bytes that the node covers, the first `length` bytes of its
    /// surface, into a buffer of their own.
    pub fn token_bytes(&self) -> (bytes: Vec<u8>)
        requires
            self.spec_has_surface(),
        ensures
            bytes@ == self.spec_token_bytes(),
    {
        let n: usize = self.length as usize;
        let mut bytes: Vec<u8> = Vec::with_capacity(n);
        let mut i: usize = 0;
        while i < n
            invariant
                i <= n,
                n == self.length,
                n <= self.surface@.len(),
                bytes@ == self.surface@.take(i as int),
            decreases n - i,
        {
            bytes.push(self.surface[i]);
            proof {
                assert(self.surface@.take(i + 1) =~= self.surface@.take(i as int).push(
                    self.surface@[i as int],
                ));
            }
            i += 1;
        }
        bytes
    }
}

} // verus!
