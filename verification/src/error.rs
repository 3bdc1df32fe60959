//! The ways in which making a text cipher or using one can fail.
use vstd::prelude::*;
use vstd::string::StringExecFns;

verus! {

/// Why a character set or a key was turned down.
#[derive(Debug, Clone, Copy, PartialEq, Eq, Structural)]
pub enum CipherError {
    /// The character set has no characters.
    EmptyCharset,
    /// A character occurs twice in the character set.
    DuplicateCharset,
    /// The key has no characters.
    EmptyKey,
    /// The key holds this character, which is not in the character set.
    InvalidKeyCharacter(char),
}

impl CipherError {
    /// The text of [`Self::message`].
    pub open spec fn spec_message(&self) -> Seq<char> {
        match *self {
            CipherError::EmptyCharset => "字符集不能为空"@,
            CipherError::DuplicateCharset => "字符集包含重复字符"@,
            CipherError::EmptyKey => "密钥不能为空"@,
            CipherError::InvalidKeyCharacter(c) => "字符 '"@.push(c) + "' 不在字符集中"@,
        }
    }

    /// What to tell a person about the failure.
    pub fn message(&self) -> (text: String)
        ensures
            text@ == self.spec_message(),
    {
        match *self {
            CipherError::EmptyCharset => String::from_str("字符集不能为空"),
            CipherError::DuplicateCharset => String::from_str("字符集包含重复字符"),
            CipherError::EmptyKey => String::from_str("密钥不能为空"),
            CipherError::InvalidKeyCharacter(c) => {
                let mut text = String::from_str("字符 '");
                text.push(c);
                text.append("' 不在字符集中");
                text
            },
        }
    }
}

} // verus!
