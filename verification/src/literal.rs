//! The bytes of the literals of the markup.

use vstd::prelude::*;
use vstd::utf8::*;

use crate::text::{lemma_occurs_byte, lit, occurs};

verus! {

/// The byte of a newline.
pub const NEWLINE: u8 = 10;

/// The byte of `*`.
pub const ASTERISK: u8 = 42;

/// The byte of `_`.
pub const UNDERSCORE: u8 = 95;

/// The byte of a backtick.
pub const BACKTICK: u8 = 96;

/// The bytes of a string of ASCII characters are its characters.
pub proof fn lemma_ascii_bytes(s: &str)
    requires
        is_ascii_chars(s@),
    ensures
        lit(s) == Seq::new(s@.len(), |i: int| s@[i] as u8),
{
    broadcast use vstd::string::is_ascii_spec_bytes;
    assert(vstd::string::is_ascii(s));
}

/// The bytes of the span delimiters.
pub proof fn lemma_delimiters()
    ensures
        lit("```") == seq![96u8, 96u8, 96u8],
        lit("``") == seq![96u8, 96u8],
        lit("`") == seq![96u8],
        lit("||") == seq![124u8, 124u8],
        lit("~~") == seq![126u8, 126u8],
        lit("_") == seq![95u8],
        lit("__") == seq![95u8, 95u8],
        lit("___") == seq![95u8, 95u8, 95u8],
        lit("____") == seq![95u8, 95u8, 95u8, 95u8],
        lit("*") == seq![42u8],
        lit("**") == seq![42u8, 42u8],
        lit("***") == seq![42u8, 42u8, 42u8],
        lit("****") == seq![42u8, 42u8, 42u8, 42u8],
{
    reveal_strlit("```");
    lemma_ascii_bytes("```");
    assert(lit("```") =~= seq![96u8, 96u8, 96u8]);
    reveal_strlit("``");
    lemma_ascii_bytes("``");
    assert(lit("``") =~= seq![96u8, 96u8]);
    reveal_strlit("`");
    lemma_ascii_bytes("`");
    assert(lit("`") =~= seq![96u8]);
    reveal_strlit("||");
    lemma_ascii_bytes("||");
    assert(lit("||") =~= seq![124u8, 124u8]);
    reveal_strlit("~~");
    lemma_ascii_bytes("~~");
    assert(lit("~~") =~= seq![126u8, 126u8]);
    reveal_strlit("_");
    lemma_ascii_bytes("_");
    assert(lit("_") =~= seq![95u8]);
    reveal_strlit("__");
    lemma_ascii_bytes("__");
    assert(lit("__") =~= seq![95u8, 95u8]);
    reveal_strlit("___");
    lemma_ascii_bytes("___");
    assert(lit("___") =~= seq![95u8, 95u8, 95u8]);
    reveal_strlit("____");
    lemma_ascii_bytes("____");
    assert(lit("____") =~= seq![95u8, 95u8, 95u8, 95u8]);
    reveal_strlit("*");
    lemma_ascii_bytes("*");
    assert(lit("*") =~= seq![42u8]);
    reveal_strlit("**");
    lemma_ascii_bytes("**");
    assert(lit("**") =~= seq![42u8, 42u8]);
    reveal_strlit("***");
    lemma_ascii_bytes("***");
    assert(lit("***") =~= seq![42u8, 42u8, 42u8]);
    reveal_strlit("****");
    lemma_ascii_bytes("****");
    assert(lit("****") =~= seq![42u8, 42u8, 42u8, 42u8]);
}

/// The bytes of the brackets, prefixes and line marks.
pub proof fn lemma_brackets()
    ensures
        lit("> ") == seq![62u8, 32u8],
        lit("\n") == seq![10u8],
        lit("<") == seq![60u8],
        lit(">") == seq![62u8],
        lit("[") == seq![91u8],
        lit("]") == seq![93u8],
        lit("(") == seq![40u8],
        lit(")") == seq![41u8],
        lit("<@") == seq![60u8, 64u8],
        lit("<@&") == seq![60u8, 64u8, 38u8],
        lit("<#") == seq![60u8, 35u8],
        lit("a") == seq![97u8],
{
    reveal_strlit("> ");
    lemma_ascii_bytes("> ");
    assert(lit("> ") =~= seq![62u8, 32u8]);
    reveal_strlit("\n");
    lemma_ascii_bytes("\n");
    assert(lit("\n") =~= seq![10u8]);
    reveal_strlit("<");
    lemma_ascii_bytes("<");
    assert(lit("<") =~= seq![60u8]);
    reveal_strlit(">");
    lemma_ascii_bytes(">");
    assert(lit(">") =~= seq![62u8]);
    reveal_strlit("[");
    lemma_ascii_bytes("[");
    assert(lit("[") =~= seq![91u8]);
    reveal_strlit("]");
    lemma_ascii_bytes("]");
    assert(lit("]") =~= seq![93u8]);
    reveal_strlit("(");
    lemma_ascii_bytes("(");
    assert(lit("(") =~= seq![40u8]);
    reveal_strlit(")");
    lemma_ascii_bytes(")");
    assert(lit(")") =~= seq![41u8]);
    reveal_strlit("<@");
    lemma_ascii_bytes("<@");
    assert(lit("<@") =~= seq![60u8, 64u8]);
    reveal_strlit("<@&");
    lemma_ascii_bytes("<@&");
    assert(lit("<@&") =~= seq![60u8, 64u8, 38u8]);
    reveal_strlit("<#");
    lemma_ascii_bytes("<#");
    assert(lit("<#") =~= seq![60u8, 35u8]);
    reveal_strlit("a");
    lemma_ascii_bytes("a");
    assert(lit("a") =~= seq![97u8]);
}

/// The bytes of the URL schemes.
pub proof fn lemma_schemes()
    ensures
        lit("http://") == seq![104u8, 116u8, 116u8, 112u8, 58u8, 47u8, 47u8],
        lit("https://") == seq![104u8, 116u8, 116u8, 112u8, 115u8, 58u8, 47u8, 47u8],
        lit("ftp://") == seq![102u8, 116u8, 112u8, 58u8, 47u8, 47u8],
        lit("file://") == seq![102u8, 105u8, 108u8, 101u8, 58u8, 47u8, 47u8],
        lit("://") == seq![58u8, 47u8, 47u8],
{
    reveal_strlit("http://");
    lemma_ascii_bytes("http://");
    assert(lit("http://") =~= seq![104u8, 116u8, 116u8, 112u8, 58u8, 47u8, 47u8]);
    reveal_strlit("https://");
    lemma_ascii_bytes("https://");
    assert(lit("https://") =~= seq![104u8, 116u8, 116u8, 112u8, 115u8, 58u8, 47u8, 47u8]);
    reveal_strlit("ftp://");
    lemma_ascii_bytes("ftp://");
    assert(lit("ftp://") =~= seq![102u8, 116u8, 112u8, 58u8, 47u8, 47u8]);
    reveal_strlit("file://");
    lemma_ascii_bytes("file://");
    assert(lit("file://") =~= seq![102u8, 105u8, 108u8, 101u8, 58u8, 47u8, 47u8]);
    reveal_strlit("://");
    lemma_ascii_bytes("://");
    assert(lit("://") =~= seq![58u8, 47u8, 47u8]);
}

/// A text in which a literal stands at the start begins with the literal's
/// first byte.
pub proof fn lemma_opening(t: Seq<u8>, lit: Seq<u8>)
    requires
        lit.len() > 0,
    ensures
        occurs(t, 0, lit) ==> t.len() > 0 && t[0] == lit[0],
{
    if occurs(t, 0, lit) {
        lemma_occurs_byte(t, 0, lit, 0);
    }
}

} // verus!
