//! The derivation of passwords, done by the `mpw` crate: a generator keyed by
//! a user's name and master password gives a seed for each site and counter,
//! and a seed gives a password after the templates of a password type.
//!
//! The templates are those of the Master Password algorithm. A template is a
//! text of symbols; each symbol names the class of characters that may stand
//! at its place, and a symbol that names no class stands for itself.

use crate::text::same_text;
use vstd::prelude::*;

verus! {

/// `mpw::SeedGenerator`, which holds a key and is never looked into.
#[verifier::external_type_specification]
#[verifier::external_body]
pub struct ExSeedGenerator(mpw::SeedGenerator);

/// The kinds of passwords that can be derived.
#[derive(Debug, Clone, Copy, PartialEq, Eq, Structural)]
pub enum PasswordType {
    Maximum,
    Long,
    Medium,
    Short,
    Basic,
    Pin,
    Name,
    Phrase,
}

/// The number of bytes of a seed.
pub const SEED_LEN: usize = 32;

/// The key that `mpw` derives from a user's name and master password.
pub uninterp spec fn master_key(identity: Seq<char>, password: Seq<char>) -> Seq<u8>;

/// The key that a generator holds.
pub uninterp spec fn generator_key(generator: mpw::SeedGenerator) -> Seq<u8>;

/// The seed that `mpw` derives under a key for a message and a counter.
pub uninterp spec fn seed_of(key: Seq<u8>, message: Seq<char>, counter: u32) -> Seq<u8>;

/// Calls `SeedGenerator::new` with the bytes of the two texts. The generator
/// holds the key derived from them and nothing else.
#[verifier::external_body]
pub(crate) fn new_generator(identity: &str, password: &str) -> (generator: mpw::SeedGenerator)
    ensures
        generator_key(generator) == master_key(identity@, password@),
{
    mpw::SeedGenerator::new(identity.as_bytes(), password.as_bytes())
}

/// Calls `SeedGenerator::calculate_password_seed` with the bytes of the
/// message, and hands out the seed's bytes. The generator is reset after the
/// call and holds its key as before.
#[verifier::external_body]
pub(crate) fn password_seed(generator: &mut mpw::SeedGenerator, message: &str, counter: u32) -> (seed:
    [u8; 32])
    ensures
        seed@ == seed_of(generator_key(*old(generator)), message@, counter),
        generator_key(*final(generator)) == generator_key(*old(generator)),
{
    generator.calculate_password_seed(message.as_bytes(), counter).raw
}

/// The characters of each place of a template.
pub open spec fn classes_view(classes: Seq<Vec<char>>) -> Seq<Seq<char>> {
    Seq::new(classes.len(), |i: int| classes[i]@)
}

/// The templates as mathematical values.
pub open spec fn templates_view(templates: Seq<Vec<Vec<char>>>) -> Seq<Seq<Seq<char>>> {
    Seq::new(templates.len(), |i: int| classes_view(templates[i]@))
}

/// Whether a password can be made after the templates: there is one, each is
/// shorter than a seed, and each place has a character to choose.
pub open spec fn templates_usable(templates: Seq<Seq<Seq<char>>>) -> bool {
    &&& templates.len() > 0
    &&& forall|t: int|
        0 <= t < templates.len() ==> {
            &&& (#[trigger] templates[t]).len() < SEED_LEN
            &&& forall|p: int| 0 <= p < templates[t].len() ==> (#[trigger] templates[t][p]).len() > 0
        }
}

/// The password that a seed gives: its first byte chooses the template, and
/// each following byte the character of one place.
pub open spec fn password_of_seed(seed: Seq<u8>, templates: Seq<Seq<Seq<char>>>) -> Seq<char> {
    let template = templates[seed[0] as int % templates.len() as int];
    Seq::new(
        template.len(),
        |p: int| template[p][seed[p + 1] as int % template[p].len() as int],
    )
}

/// Calls `Seed::create_password` on a seed of these bytes with the templates
/// as slices.
#[verifier::external_body]
pub(crate) fn seed_password(seed: &[u8; 32], templates: &Vec<Vec<Vec<char>>>) -> (password: String)
    requires
        templates_usable(templates_view(templates@)),
    ensures
        password@ == password_of_seed(seed@, templates_view(templates@)),
{
    let classes: Vec<Vec<&[char]>> = templates.iter().map(
        |template| template.iter().map(|class| class.as_slice()).collect(),
    ).collect();
    let slices: Vec<&[&[char]]> = classes.iter().map(|template| template.as_slice()).collect();
    mpw::Seed { raw: *seed }.create_password(&slices)
}

/// The name under which a password type is kept in a site record.
pub open spec fn name_of_type(kind: PasswordType) -> Seq<char> {
    match kind {
        PasswordType::Maximum => "Maximum"@,
        PasswordType::Long => "Long"@,
        PasswordType::Medium => "Medium"@,
        PasswordType::Short => "Short"@,
        PasswordType::Basic => "Basic"@,
        PasswordType::Pin => "PIN"@,
        PasswordType::Name => "Name"@,
        PasswordType::Phrase => "Phrase"@,
    }
}

/// The password type of a name, where the name is that of one.
pub open spec fn type_named(name: Seq<char>) -> Option<PasswordType> {
    if name == "Maximum"@ {
        Some(PasswordType::Maximum)
    } else if name == "Long"@ {
        Some(PasswordType::Long)
    } else if name == "Medium"@ {
        Some(PasswordType::Medium)
    } else if name == "Short"@ {
        Some(PasswordType::Short)
    } else if name == "Basic"@ {
        Some(PasswordType::Basic)
    } else if name == "PIN"@ {
        Some(PasswordType::Pin)
    } else if name == "Name"@ {
        Some(PasswordType::Name)
    } else if name == "Phrase"@ {
        Some(PasswordType::Phrase)
    } else {
        None
    }
}

/// Every password type is found under its name.
pub proof fn lemma_type_named_its_name(kind: PasswordType)
    ensures
        type_named(name_of_type(kind)) == Some(kind),
{
    reveal_strlit("Maximum");
    reveal_strlit("Long");
    reveal_strlit("Medium");
    reveal_strlit("Short");
    reveal_strlit("Basic");
    reveal_strlit("PIN");
    reveal_strlit("Name");
    reveal_strlit("Phrase");
    assert("Maximum"@.len() == 7);
    assert("Long"@.len() == 4 && "Name"@.len() == 4);
    assert("Medium"@.len() == 6 && "Phrase"@.len() == 6);
    assert("Short"@.len() == 5 && "Basic"@.len() == 5);
    assert("PIN"@.len() == 3);
    assert("Long"@[0] == 'L' && "Name"@[0] == 'N');
    assert("Short"@[0] == 'S' && "Basic"@[0] == 'B');
    assert("Medium"@[0] == 'M' && "Phrase"@[0] == 'P');
}

/// The characters that may stand at a place marked with the symbol.
pub open spec fn class_of(symbol: char) -> Seq<char> {
    if symbol == 'V' {
        "AEIOU"@
    } else if symbol == 'C' {
        "BCDFGHJKLMNPQRSTVWXYZ"@
    } else if symbol == 'v' {
        "aeiou"@
    } else if symbol == 'c' {
        "bcdfghjklmnpqrstvwxyz"@
    } else if symbol == 'A' {
        "AEIOUBCDFGHJKLMNPQRSTVWXYZ"@
    } else if symbol == 'a' {
        "AEIOUaeiouBCDFGHJKLMNPQRSTVWXYZbcdfghjklmnpqrstvwxyz"@
    } else if symbol == 'n' {
        "0123456789"@
    } else if symbol == 'o' {
        "@&%?,=[]_:-+*$#!'^~;()/."@
    } else if symbol == 'x' {
        "AEIOUaeiouBCDFGHJKLMNPQRSTVWXYZbcdfghjklmnpqrstvwxyz0123456789!@#$%^&*()"@
    } else {
        seq![symbol]
    }
}

/// The characters of each place of a template text.
pub open spec fn template_classes(template: Seq<char>) -> Seq<Seq<char>> {
    Seq::new(template.len(), |p: int| class_of(template[p]))
}

/// The template texts of a password type.
pub open spec fn template_texts(kind: PasswordType) -> Seq<Seq<char>> {
    match kind {
        PasswordType::Maximum => seq![
            "anoxxxxxxxxxxxxxxxxx"@,
            "axxxxxxxxxxxxxxxxxno"@,
        ],
        PasswordType::Long => seq![
            "CvcvnoCvcvCvcv"@,
            "CvcvCvcvnoCvcv"@,
            "CvcvCvcvCvcvno"@,
            "CvccnoCvcvCvcv"@,
            "CvccCvcvnoCvcv"@,
            "CvccCvcvCvcvno"@,
            "CvcvnoCvccCvcv"@,
            "CvcvCvccnoCvcv"@,
            "CvcvCvccCvcvno"@,
            "CvcvnoCvcvCvcc"@,
            "CvcvCvcvnoCvcc"@,
            "CvcvCvcvCvccno"@,
            "CvccnoCvccCvcv"@,
            "CvccCvccnoCvcv"@,
            "CvccCvccCvcvno"@,
            "CvcvnoCvccCvcc"@,
            "CvcvCvccnoCvcc"@,
            "CvcvCvccCvccno"@,
            "CvccnoCvcvCvcc"@,
            "CvccCvcvnoCvcc"@,
            "CvccCvcvCvccno"@,
        ],
        PasswordType::Medium => seq![
            "CvcnoCvc"@,
            "CvcCvcno"@,
        ],
        PasswordType::Short => seq![
            "Cvcn"@,
        ],
        PasswordType::Basic => seq![
            "aaanaaan"@,
            "aannaaan"@,
            "aaannaaa"@,
        ],
        PasswordType::Pin => seq![
            "nnnn"@,
        ],
        PasswordType::Name => seq![
            "cvccvcvcv"@,
        ],
        PasswordType::Phrase => seq![
            "cvcc cvc cvccvcv cvc"@,
            "cvc cvccvcvcv cvcv"@,
            "cv cvccv cvc cvcvccv"@,
        ],
    }
}

/// The templates of a password type.
pub open spec fn templates_of(kind: PasswordType) -> Seq<Seq<Seq<char>>> {
    Seq::new(template_texts(kind).len(), |t: int| template_classes(template_texts(kind)[t]))
}

/// Every symbol has a character to choose.
pub proof fn lemma_class_not_empty(symbol: char)
    ensures
        class_of(symbol).len() > 0,
{
    reveal_strlit("AEIOU");
    reveal_strlit("BCDFGHJKLMNPQRSTVWXYZ");
    reveal_strlit("aeiou");
    reveal_strlit("bcdfghjklmnpqrstvwxyz");
    reveal_strlit("AEIOUBCDFGHJKLMNPQRSTVWXYZ");
    reveal_strlit("AEIOUaeiouBCDFGHJKLMNPQRSTVWXYZbcdfghjklmnpqrstvwxyz");
    reveal_strlit("0123456789");
    reveal_strlit("@&%?,=[]_:-+*$#!'^~;()/.");
    reveal_strlit("AEIOUaeiouBCDFGHJKLMNPQRSTVWXYZbcdfghjklmnpqrstvwxyz0123456789!@#$%^&*()");
}

/// A password can be made after the templates of every password type.
pub proof fn lemma_templates_usable(kind: PasswordType)
    ensures
        templates_usable(templates_of(kind)),
{
    reveal_strlit("anoxxxxxxxxxxxxxxxxx");
    reveal_strlit("axxxxxxxxxxxxxxxxxno");
    reveal_strlit("CvcvnoCvcvCvcv");
    reveal_strlit("CvcvCvcvnoCvcv");
    reveal_strlit("CvcvCvcvCvcvno");
    reveal_strlit("CvccnoCvcvCvcv");
    reveal_strlit("CvccCvcvnoCvcv");
    reveal_strlit("CvccCvcvCvcvno");
    reveal_strlit("CvcvnoCvccCvcv");
    reveal_strlit("CvcvCvccnoCvcv");
    reveal_strlit("CvcvCvccCvcvno");
    reveal_strlit("CvcvnoCvcvCvcc");
    reveal_strlit("CvcvCvcvnoCvcc");
    reveal_strlit("CvcvCvcvCvccno");
    reveal_strlit("CvccnoCvccCvcv");
    reveal_strlit("CvccCvccnoCvcv");
    reveal_strlit("CvccCvccCvcvno");
    reveal_strlit("CvcvnoCvccCvcc");
    reveal_strlit("CvcvCvccnoCvcc");
    reveal_strlit("CvcvCvccCvccno");
    reveal_strlit("CvccnoCvcvCvcc");
    reveal_strlit("CvccCvcvnoCvcc");
    reveal_strlit("CvccCvcvCvccno");
    reveal_strlit("CvcnoCvc");
    reveal_strlit("CvcCvcno");
    reveal_strlit("Cvcn");
    reveal_strlit("aaanaaan");
    reveal_strlit("aannaaan");
    reveal_strlit("aaannaaa");
    reveal_strlit("nnnn");
    reveal_strlit("cvccvcvcv");
    reveal_strlit("cvcc cvc cvccvcv cvc");
    reveal_strlit("cvc cvccvcvcv cvcv");
    reveal_strlit("cv cvccv cvc cvcvccv");
    let templates = templates_of(kind);
    assert forall|t: int| 0 <= t < templates.len() implies {
        &&& (#[trigger] templates[t]).len() < SEED_LEN
        &&& forall|p: int| 0 <= p < templates[t].len() ==> (#[trigger] templates[t][p]).len() > 0
    } by {
        assert(templates[t].len() == template_texts(kind)[t].len());
        assert forall|p: int| 0 <= p < templates[t].len() implies (#[trigger] templates[t][p]).len()
            > 0 by {
            lemma_class_not_empty(template_texts(kind)[t][p]);
        }
    }
}

impl PasswordType {
    /// The password type of a name: `Maximum`, `Long`, `Medium`, `Short`,
    /// `Basic`, `PIN`, `Name` or `Phrase`, written exactly so.
    pub fn from_name(name: &str) -> (kind: Option<PasswordType>)
        ensures
            kind == type_named(name@),
    {
        if same_text(name, "Maximum") {
            Some(PasswordType::Maximum)
        } else if same_text(name, "Long") {
            Some(PasswordType::Long)
        } else if same_text(name, "Medium") {
            Some(PasswordType::Medium)
        } else if same_text(name, "Short") {
            Some(PasswordType::Short)
        } else if same_text(name, "Basic") {
            Some(PasswordType::Basic)
        } else if same_text(name, "PIN") {
            Some(PasswordType::Pin)
        } else if same_text(name, "Name") {
            Some(PasswordType::Name)
        } else if same_text(name, "Phrase") {
            Some(PasswordType::Phrase)
        } else {
            None
        }
    }

    /// The name of the password type.
    pub fn name(&self) -> (name: &'static str)
        ensures
            name@ == name_of_type(*self),
    {
        match self {
            PasswordType::Maximum => "Maximum",
            PasswordType::Long => "Long",
            PasswordType::Medium => "Medium",
            PasswordType::Short => "Short",
            PasswordType::Basic => "Basic",
            PasswordType::Pin => "PIN",
            PasswordType::Name => "Name",
            PasswordType::Phrase => "Phrase",
        }
    }
}

/// The characters of a text.
fn chars_of(text: &str) -> (chars: Vec<char>)
    ensures
        chars@ == text@,
{
    let count = text.unicode_len();
    let mut chars: Vec<char> = Vec::new();
    let mut i: usize = 0;
    while i < count
        invariant
            0 <= i <= count,
            count == text@.len(),
            chars@ == text@.take(i as int),
        decreases count - i,
    {
        chars.push(text.get_char(i));
        assert(chars@ =~= text@.take(i + 1));
        i += 1;
    }
    assert(text@.take(count as int) =~= text@);
    chars
}

/// The characters that may stand at a place marked with the symbol.
fn class_chars(symbol: char) -> (chars: Vec<char>)
    ensures
        chars@ == class_of(symbol),
{
    if symbol == 'V' {
        chars_of("AEIOU")
    } else if symbol == 'C' {
        chars_of("BCDFGHJKLMNPQRSTVWXYZ")
    } else if symbol == 'v' {
        chars_of("aeiou")
    } else if symbol == 'c' {
        chars_of("bcdfghjklmnpqrstvwxyz")
    } else if symbol == 'A' {
        chars_of("AEIOUBCDFGHJKLMNPQRSTVWXYZ")
    } else if symbol == 'a' {
        chars_of("AEIOUaeiouBCDFGHJKLMNPQRSTVWXYZbcdfghjklmnpqrstvwxyz")
    } else if symbol == 'n' {
        chars_of("0123456789")
    } else if symbol == 'o' {
        chars_of("@&%?,=[]_:-+*$#!'^~;()/.")
    } else if symbol == 'x' {
        chars_of("AEIOUaeiouBCDFGHJKLMNPQRSTVWXYZbcdfghjklmnpqrstvwxyz0123456789!@#$%^&*()")
    } else {
        let mut chars: Vec<char> = Vec::new();
        chars.push(symbol);
        assert(chars@ =~= seq![symbol]);
        chars
    }
}

/// The characters of each place of a template text.
fn expand_template(template: &str) -> (classes: Vec<Vec<char>>)
    ensures
        classes_view(classes@) == template_classes(template@),
{
    let symbols = chars_of(template);
    let mut classes: Vec<Vec<char>> = Vec::new();
    let mut p: usize = 0;
    while p < symbols.len()
        invariant
            0 <= p <= symbols.len(),
            symbols@ == template@,
            classes@.len() == p,
            forall|q: int| 0 <= q < p ==> (#[trigger] classes@[q])@ == class_of(template@[q]),
        decreases symbols.len() - p,
    {
        classes.push(class_chars(symbols[p]));
        p += 1;
    }
    assert(classes_view(classes@) =~= template_classes(template@));
    classes
}

/// The template texts of a password type.
fn template_list(kind: PasswordType) -> (texts: Vec<&'static str>)
    ensures
        texts@.len() == template_texts(kind).len(),
        forall|t: int| 0 <= t < texts@.len() ==> (#[trigger] texts@[t])@ == template_texts(kind)[t],
{
    let mut texts: Vec<&'static str> = Vec::new();
    match kind {
        PasswordType::Maximum => {
            texts.push("anoxxxxxxxxxxxxxxxxx");
            texts.push("axxxxxxxxxxxxxxxxxno");
        },
        PasswordType::Long => {
            texts.push("CvcvnoCvcvCvcv");
            texts.push("CvcvCvcvnoCvcv");
            texts.push("CvcvCvcvCvcvno");
            texts.push("CvccnoCvcvCvcv");
            texts.push("CvccCvcvnoCvcv");
            texts.push("CvccCvcvCvcvno");
            texts.push("CvcvnoCvccCvcv");
            texts.push("CvcvCvccnoCvcv");
            texts.push("CvcvCvccCvcvno");
            texts.push("CvcvnoCvcvCvcc");
            texts.push("CvcvCvcvnoCvcc");
            texts.push("CvcvCvcvCvccno");
            texts.push("CvccnoCvccCvcv");
            texts.push("CvccCvccnoCvcv");
            texts.push("CvccCvccCvcvno");
            texts.push("CvcvnoCvccCvcc");
            texts.push("CvcvCvccnoCvcc");
            texts.push("CvcvCvccCvccno");
            texts.push("CvccnoCvcvCvcc");
            texts.push("CvccCvcvnoCvcc");
            texts.push("CvccCvcvCvccno");
        },
        PasswordType::Medium => {
            texts.push("CvcnoCvc");
            texts.push("CvcCvcno");
        },
        PasswordType::Short => {
            texts.push("Cvcn");
        },
        PasswordType::Basic => {
            texts.push("aaanaaan");
            texts.push("aannaaan");
            texts.push("aaannaaa");
        },
        PasswordType::Pin => {
            texts.push("nnnn");
        },
        PasswordType::Name => {
            texts.push("cvccvcvcv");
        },
        PasswordType::Phrase => {
            texts.push("cvcc cvc cvccvcv cvc");
            texts.push("cvc cvccvcvcv cvcv");
            texts.push("cv cvccv cvc cvcvccv");
        },
    }
    texts
}

/// The templates of a password type.
pub fn templates(kind: PasswordType) -> (list: Vec<Vec<Vec<char>>>)
    ensures
        templates_view(list@) == templates_of(kind),
        templates_usable(templates_of(kind)),
{
    let texts = template_list(kind);
    let mut list: Vec<Vec<Vec<char>>> = Vec::new();
    let mut t: usize = 0;
    while t < texts.len()
        invariant
            0 <= t <= texts.len(),
            texts@.len() == template_texts(kind).len(),
            forall|u: int|
                0 <= u < texts@.len() ==> (#[trigger] texts@[u])@ == template_texts(kind)[u],
            list@.len() == t,
            forall|u: int|
                0 <= u < t ==> classes_view((#[trigger] list@[u])@) == template_classes(
                    template_texts(kind)[u],
                ),
        decreases texts.len() - t,
    {
        list.push(expand_template(texts[t]));
        t += 1;
    }
    proof {
        assert(templates_view(list@) =~= templates_of(kind));
        lemma_templates_usable(kind);
    }
    list
}

/// The password derived under a key for a site, a password type and a
/// counter.
pub open spec fn derived_password(
    key: Seq<u8>,
    site_name: Seq<char>,
    kind: PasswordType,
    counter: u32,
) -> Seq<char> {
    password_of_seed(seed_of(key, site_name, counter), templates_of(kind))
}

/// Derives the password for a site, a password type and a counter. The
/// generator holds its key as before.
pub fn derive_password(
    generator: &mut mpw::SeedGenerator,
    site_name: &str,
    kind: PasswordType,
    counter: u32,
) -> (password: String)
    ensures
        password@ == derived_password(generator_key(*old(generator)), site_name@, kind, counter),
        generator_key(*final(generator)) == generator_key(*old(generator)),
{
    let seed = password_seed(generator, site_name, counter);
    let list = templates(kind);
    seed_password(&seed, &list)
}

} // verus!
