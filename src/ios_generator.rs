//! The iOS `.strings` format.
use vstd::prelude::*;
use crate::strings_generator::{pairs, Generator, TranslationOut};
use crate::text::{replace_all, replaced};

verus! {

/// The strings of one language, for iOS.
pub struct TranslationsIOS {
    pub lang: String,
    pub translations: Vec<TranslationOut>,
}

/// `s` with the `%s`, `%d` and `%c` placeholders turned into `%@`, then
/// each double quote escaped with a backslash.
pub open spec fn escaped(s: Seq<char>) -> Seq<char> {
    replaced(
        replaced(replaced(replaced(s, "%s"@, "%@"@), "%d"@, "%@"@), "%c"@, "%@"@),
        "\""@,
        "\\\""@,
    )
}

/// One line of a `.strings` file.
pub open spec fn ios_line(key: Seq<char>, value: Seq<char>) -> Seq<char> {
    "\""@ + key + "\" = \""@ + escaped(value) + "\";\n"@
}

/// The lines of `ps`, in order.
pub open spec fn ios_text(ps: Seq<(Seq<char>, Seq<char>)>) -> Seq<char>
    decreases ps.len(),
{
    if ps.len() == 0 {
        Seq::empty()
    } else {
        ios_text(ps.drop_last()) + ios_line(ps.last().0, ps.last().1)
    }
}

impl TranslationsIOS {
    /// `translation` with its placeholders and quotes made fit for iOS.
    pub fn escape(translation: &str) -> (r: String)
        ensures
            r@ == escaped(translation@),
    {
        proof {
            reveal_strlit("%s");
            reveal_strlit("%d");
            reveal_strlit("%c");
            reveal_strlit("\"");
        }
        let a = replace_all(translation, "%s", "%@");
        let b = replace_all(a.as_str(), "%d", "%@");
        let c = replace_all(b.as_str(), "%c", "%@");
        replace_all(c.as_str(), "\"", "\\\"")
    }
}

impl Generator for TranslationsIOS {
    open spec fn text(&self) -> Seq<char> {
        ios_text(pairs(self.translations@))
    }

    open spec fn name(&self) -> Seq<char> {
        "Localized_"@ + self.lang@ + ".strings"@
    }

    fn file_name(&self) -> (r: String) {
        let mut name = String::from_str("Localized_");
        name.append(self.lang.as_str());
        name.append(".strings");
        name
    }

    fn render(&self) -> (r: String) {
        let mut out = String::new();
        let mut i: usize = 0;
        while i < self.translations.len()
            invariant
                i <= self.translations.len(),
                out@ == ios_text(pairs(self.translations@).take(i as int)),
            decreases self.translations.len() - i,
        {
            let t = &self.translations[i];
            let ghost before = out@;
            out.append("\"");
            out.append(t.key.as_str());
            out.append("\" = \"");
            let value = TranslationsIOS::escape(t.value.as_str());
            out.append(value.as_str());
            out.append("\";\n");
            let ghost ps = pairs(self.translations@);
            assert(ps.take(i + 1).drop_last() =~= ps.take(i as int));
            assert(ps.take(i + 1).last() == (t.key@, t.value@));
            assert(out@ =~= before + ios_line(t.key@, t.value@));
            i = i + 1;
        }
        assert(pairs(self.translations@).take(i as int) =~= pairs(self.translations@));
        out
    }
}

} // verus!
