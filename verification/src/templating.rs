//! Deployment script templates: placeholders in a template are replaced by the
//! deployed pack's name, its mod launch parameter and the current date.
use vstd::prelude::*;

use crate::text::push_char;

verus! {

/// Whether `pat` occurs in `s` starting at position `i`.
pub open spec fn occurs_at(s: Seq<char>, pat: Seq<char>, i: int) -> bool {
    0 <= i && i + pat.len() <= s.len() && s.subrange(i, i + pat.len()) == pat
}

/// `s` with every occurrence of `pat` replaced by `rep`, scanning from the
/// left and resuming after each replaced occurrence (non-overlapping).
pub open spec fn replace_spec(s: Seq<char>, pat: Seq<char>, rep: Seq<char>) -> Seq<char>
    decreases s.len(),
{
    if s.len() == 0 {
        s
    } else if pat.len() > 0 && occurs_at(s, pat, 0) {
        rep + replace_spec(s.skip(pat.len() as int), pat, rep)
    } else {
        seq![s[0]] + replace_spec(s.skip(1), pat, rep)
    }
}

/// `{DATESTAMP}`.
pub open spec fn datestamp_placeholder() -> Seq<char> {
    seq!['{', 'D', 'A', 'T', 'E', 'S', 'T', 'A', 'M', 'P', '}']
}

/// `{DEPLOYED_PACK}`.
pub open spec fn deployed_pack_placeholder() -> Seq<char> {
    seq!['{', 'D', 'E', 'P', 'L', 'O', 'Y', 'E', 'D', '_', 'P', 'A', 'C', 'K', '}']
}

/// `{MOD_LAUNCH_PARAM}`.
pub open spec fn mod_launch_param_placeholder() -> Seq<char> {
    seq![
        '{',
        'M',
        'O',
        'D',
        '_',
        'L',
        'A',
        'U',
        'N',
        'C',
        'H',
        '_',
        'P',
        'A',
        'R',
        'A',
        'M',
        '}',
    ]
}

/// Whether `pat` occurs at position `i` of `s`.
fn occurs_at_exec(s: &Vec<char>, pat: &Vec<char>, i: usize) -> (b: bool)
    requires
        i <= s.len(),
    ensures
        b == occurs_at(s@, pat@, i as int),
{
    if pat.len() > s.len() - i {
        return false;
    }
    let mut j: usize = 0;
    while j < pat.len()
        invariant
            i + pat.len() <= s.len(),
            j <= pat.len(),
            forall|k: int| 0 <= k < j ==> s@[i + k] == pat@[k],
        decreases pat.len() - j,
    {
        if s[i + j] != pat[j] {
            assert(s@.subrange(i as int, i + pat.len())[j as int] != pat@[j as int]);
            return false;
        }
        j = j + 1;
    }
    assert(s@.subrange(i as int, i + pat.len()) =~= pat@);
    true
}

/// Replaces every occurrence of the non-empty pattern `pat` in `s` by `rep`,
/// left to right and without overlaps, as `str::replace` does.
pub fn replace_all(s: &str, pat: &str, rep: &str) -> (r: String)
    requires
        pat@.len() > 0,
    ensures
        r@ == replace_spec(s@, pat@, rep@),
{
    let sc = crate::text::chars_of(s);
    let pc = crate::text::chars_of(pat);
    let mut r = String::new();
    let mut i: usize = 0;
    proof {
        assert(s@.skip(0) =~= s@);
    }
    while i < sc.len()
        invariant
            sc@ == s@,
            pc@ == pat@,
            pat@.len() > 0,
            i <= sc.len(),
            replace_spec(s@, pat@, rep@) == r@ + replace_spec(s@.skip(i as int), pat@, rep@),
        decreases sc.len() - i,
    {
        let ghost rest = s@.skip(i as int);
        if occurs_at_exec(&sc, &pc, i) {
            proof {
                assert(rest.subrange(0, pat@.len() as int) =~= s@.subrange(
                    i as int,
                    i + pat@.len(),
                ));
                assert(occurs_at(rest, pat@, 0));
                assert(rest.skip(pat@.len() as int) =~= s@.skip(i + pat@.len()));
                assert(r@ + (rep@ + replace_spec(s@.skip(i + pat@.len()), pat@, rep@)) =~= (r@
                    + rep@) + replace_spec(s@.skip(i + pat@.len()), pat@, rep@));
            }
            r.append(rep);
            i = i + pc.len();
        } else {
            let c = sc[i];
            proof {
                if occurs_at(rest, pat@, 0) {
                    assert(rest.subrange(0, pat@.len() as int) =~= s@.subrange(
                        i as int,
                        i + pat@.len(),
                    ));
                }
                assert(rest.skip(1) =~= s@.skip(i + 1));
                assert(rest[0] == c);
                assert(r@ + (seq![c] + replace_spec(s@.skip(i + 1), pat@, rep@)) =~= r@.push(c)
                    + replace_spec(s@.skip(i + 1), pat@, rep@));
            }
            push_char(&mut r, c);
            i = i + 1;
        }
    }
    proof {
        assert(s@.skip(sc.len() as int) =~= Seq::<char>::empty());
        assert(r@ + Seq::<char>::empty() =~= r@);
    }
    r
}

/// A template without any occurrence of the pattern is left unchanged.
pub proof fn lemma_replace_absent(s: Seq<char>, pat: Seq<char>, rep: Seq<char>)
    requires
        forall|i: int| !occurs_at(s, pat, i),
    ensures
        replace_spec(s, pat, rep) == s,
    decreases s.len(),
{
    if s.len() > 0 {
        assert(!occurs_at(s, pat, 0));
        assert forall|i: int| !occurs_at(s.skip(1), pat, i) by {
            if occurs_at(s.skip(1), pat, i) {
                assert(s.subrange(i + 1, i + 1 + pat.len()) =~= s.skip(1).subrange(
                    i,
                    i + pat.len(),
                ));
                assert(occurs_at(s, pat, i + 1));
            }
        }
        lemma_replace_absent(s.skip(1), pat, rep);
        assert(seq![s[0]] + s.skip(1) =~= s);
    }
}

/// Text in which no stretch equals the pattern is left as it is.
pub proof fn lemma_replace_without_pattern(s: Seq<char>, pat: Seq<char>, rep: Seq<char>)
    requires
        forall|i: int| 0 <= i && i + pat.len() <= s.len() ==> #[trigger] s.subrange(i, i + pat.len()) != pat,
    ensures
        replace_spec(s, pat, rep) == s,
{
    assert forall|i: int| !occurs_at(s, pat, i) by {
        if 0 <= i && i + pat.len() <= s.len() {
            assert(s.subrange(i, i + pat.len()) != pat);
        }
    }
    lemma_replace_absent(s, pat, rep);
}

/// No occurrence of `pat` in `a + b` starts inside `a` and ends past it.
pub open spec fn no_straddle(a: Seq<char>, b: Seq<char>, pat: Seq<char>) -> bool {
    forall|i: int| 0 <= i < a.len() && i + pat.len() > a.len() ==> !#[trigger] occurs_at(a + b, pat, i)
}

proof fn lemma_occurs_shift(a: Seq<char>, b: Seq<char>, pat: Seq<char>, k: int, i: int)
    requires
        0 <= k <= a.len(),
        0 <= i,
    ensures
        occurs_at(a.skip(k) + b, pat, i) == occurs_at(a + b, pat, i + k),
{
    assert(a.skip(k) + b =~= (a + b).skip(k));
    if i + pat.len() <= (a + b).len() - k {
        assert((a + b).skip(k).subrange(i, i + pat.len()) =~= (a + b).subrange(i + k, i + k + pat.len()));
    }
}

/// Replacing in two pieces: where no occurrence of the pattern straddles the
/// join, `a + b` with every occurrence replaced is `a` with every occurrence
/// replaced followed by `b` with every occurrence replaced. So every
/// occurrence is replaced, not only the first.
pub proof fn lemma_replace_concat(a: Seq<char>, b: Seq<char>, pat: Seq<char>, rep: Seq<char>)
    requires
        pat.len() > 0,
        no_straddle(a, b, pat),
    ensures
        replace_spec(a + b, pat, rep) == replace_spec(a, pat, rep) + replace_spec(b, pat, rep),
    decreases a.len(),
{
    let s = a + b;
    if a.len() == 0 {
        assert(s =~= b);
        assert(Seq::<char>::empty() + replace_spec(b, pat, rep) =~= replace_spec(b, pat, rep));
    } else if occurs_at(s, pat, 0) {
        let p = pat.len() as int;
        assert(!(0 + pat.len() > a.len())) by {
            if 0 + pat.len() > a.len() {
                assert(occurs_at(a + b, pat, 0));
            }
        }
        assert(a.subrange(0, p) =~= s.subrange(0, p));
        assert(occurs_at(a, pat, 0));
        assert(s.skip(p) =~= a.skip(p) + b);
        assert forall|i: int|
            0 <= i < a.skip(p).len() && i + pat.len() > a.skip(p).len() implies !#[trigger] occurs_at(
            a.skip(p) + b,
            pat,
            i,
        ) by {
            lemma_occurs_shift(a, b, pat, p, i);
            assert(!occurs_at(a + b, pat, i + p));
        }
        lemma_replace_concat(a.skip(p), b, pat, rep);
        assert(rep + (replace_spec(a.skip(p), pat, rep) + replace_spec(b, pat, rep)) =~= (rep
            + replace_spec(a.skip(p), pat, rep)) + replace_spec(b, pat, rep));
    } else {
        if occurs_at(a, pat, 0) {
            assert(a.subrange(0, pat.len() as int) =~= s.subrange(0, pat.len() as int));
            assert(false);
        }
        assert(s.skip(1) =~= a.skip(1) + b);
        assert(s[0] == a[0]);
        assert forall|i: int|
            0 <= i < a.skip(1).len() && i + pat.len() > a.skip(1).len() implies !#[trigger] occurs_at(
            a.skip(1) + b,
            pat,
            i,
        ) by {
            lemma_occurs_shift(a, b, pat, 1, i);
            assert(!occurs_at(a + b, pat, i + 1));
        }
        lemma_replace_concat(a.skip(1), b, pat, rep);
        assert(seq![a[0]] + (replace_spec(a.skip(1), pat, rep) + replace_spec(b, pat, rep)) =~= (seq![a[0]]
            + replace_spec(a.skip(1), pat, rep)) + replace_spec(b, pat, rep));
    }
}

/// The pattern alone becomes the replacement.
pub proof fn lemma_replace_whole(pat: Seq<char>, rep: Seq<char>)
    requires
        pat.len() > 0,
    ensures
        replace_spec(pat, pat, rep) == rep,
{
    assert(pat.subrange(0, pat.len() as int) =~= pat);
    assert(occurs_at(pat, pat, 0));
    assert(pat.skip(pat.len() as int) =~= Seq::<char>::empty());
    assert(replace_spec(Seq::<char>::empty(), pat, rep) == Seq::<char>::empty());
    assert(rep + Seq::<char>::empty() =~= rep);
}

/// Text with the pattern twice, nothing else between or around, has both
/// occurrences replaced, whenever the pattern cannot straddle its own
/// repetition.
pub proof fn lemma_replace_twice(pat: Seq<char>, rep: Seq<char>)
    requires
        pat.len() > 0,
        no_straddle(pat, pat, pat),
    ensures
        replace_spec(pat + pat, pat, rep) == rep + rep,
{
    lemma_replace_concat(pat, pat, pat, rep);
    lemma_replace_whole(pat, rep);
}

/// Whether the first character of `pat` occurs nowhere else in it, as the
/// `{` of a placeholder `{NAME}`.
pub open spec fn first_char_unique(pat: Seq<char>) -> bool {
    pat.len() > 0 && forall|j: int| 0 < j < pat.len() ==> #[trigger] pat[j] != pat[0]
}

/// Text that starts with such a pattern has it replaced, and the rest
/// replaced as a whole: no occurrence can start inside the leading pattern.
pub proof fn lemma_replace_leading(pat: Seq<char>, b: Seq<char>, rep: Seq<char>)
    requires
        first_char_unique(pat),
    ensures
        replace_spec(pat + b, pat, rep) == rep + replace_spec(b, pat, rep),
{
    assert forall|i: int| 0 <= i < pat.len() && i + pat.len() > pat.len() implies !#[trigger] occurs_at(
        pat + b,
        pat,
        i,
    ) by {
        if occurs_at(pat + b, pat, i) {
            assert((pat + b).subrange(i, i + pat.len())[0] == pat[0]);
            assert((pat + b)[i] == pat[i]);
        }
    }
    lemma_replace_concat(pat, b, pat, rep);
    lemma_replace_whole(pat, rep);
}

/// The three placeholders each start with a `{` that occurs nowhere else in
/// them.
pub proof fn lemma_placeholders_first_char_unique()
    ensures
        first_char_unique(mod_launch_param_placeholder()),
        first_char_unique(deployed_pack_placeholder()),
        first_char_unique(datestamp_placeholder()),
{
}

/// What a template is rendered with.
pub struct ScriptTemplateContext<'a> {
    /// The name of the pack being deployed.
    pub pack_name: &'a str,
    /// The name of the template (its path), for diagnostics.
    pub template_name: &'a str,
    /// The `"-mod=..."` launch parameter of the deployed pack.
    pub mod_launch_param: &'a str,
}

impl<'a> ScriptTemplateContext<'a> {
    /// Bundles the values a template is rendered with.
    pub fn new(pack_name: &'a str, template_name: &'a str, mod_launch_param: &'a str) -> (r: Self)
        ensures
            r.pack_name == pack_name,
            r.template_name == template_name,
            r.mod_launch_param == mod_launch_param,
    {
        Self { pack_name, template_name, mod_launch_param }
    }
}

/// One kind of placeholder replacement applied to a script template.
pub trait ScriptTemplateReplacementStrategy {
    /// Rewrites `script_content` in place.
    fn apply(&self, context: &ScriptTemplateContext<'_>, script_content: &mut String);
}

/// Replaces `{MOD_LAUNCH_PARAM}` by the pack's mod launch parameter.
pub struct ModLaunchParamReplacementStrategy;

/// Replaces `{DEPLOYED_PACK}` by the deployed pack's name.
pub struct DeployedPackNameReplacementStrategy;

/// Replaces `{DATESTAMP}` by the current date, `YYYY-MM-DD`.
pub struct DatestampReplacementStrategy;

impl ScriptTemplateReplacementStrategy for ModLaunchParamReplacementStrategy {
    fn apply(&self, context: &ScriptTemplateContext<'_>, script_content: &mut String)
        ensures
            final(script_content)@ == replace_spec(
                old(script_content)@,
                mod_launch_param_placeholder(),
                context.mod_launch_param@,
            ),
    {
        proof {
            reveal_strlit("{MOD_LAUNCH_PARAM}");
            assert("{MOD_LAUNCH_PARAM}"@ =~= mod_launch_param_placeholder());
        }
        *script_content = replace_all(
            script_content.as_str(),
            "{MOD_LAUNCH_PARAM}",
            context.mod_launch_param,
        );
    }
}

impl ScriptTemplateReplacementStrategy for DeployedPackNameReplacementStrategy {
    fn apply(&self, context: &ScriptTemplateContext<'_>, script_content: &mut String)
        ensures
            final(script_content)@ == replace_spec(
                old(script_content)@,
                deployed_pack_placeholder(),
                context.pack_name@,
            ),
    {
        proof {
            reveal_strlit("{DEPLOYED_PACK}");
            assert("{DEPLOYED_PACK}"@ =~= deployed_pack_placeholder());
        }
        *script_content = replace_all(script_content.as_str(), "{DEPLOYED_PACK}", context.pack_name);
    }
}

/// `c` is an ASCII decimal digit.
pub open spec fn is_digit(c: char) -> bool {
    48 <= (c as int) && (c as int) <= 57
}

/// The number that the two ASCII digits `a` and `b` spell.
pub open spec fn two_digit_value(a: char, b: char) -> int {
    ((a as int) - 48) * 10 + ((b as int) - 48)
}

/// `s` reads as a date `%Y-%m-%d`: a year of at least four characters, a
/// digit or a sign first and digits after it, then a two-digit month from
/// 01 to 12 and a two-digit day from 01 to 31, each after a `-`.
pub open spec fn is_datestamp(s: Seq<char>) -> bool {
    let n = s.len() as int;
    &&& n >= 10
    &&& is_digit(s[0]) || s[0] == '+' || s[0] == '-'
    &&& forall|i: int| 1 <= i < n - 6 ==> is_digit(#[trigger] s[i])
    &&& s[n - 6] == '-' && s[n - 3] == '-'
    &&& is_digit(s[n - 5]) && is_digit(s[n - 4]) && is_digit(s[n - 2]) && is_digit(s[n - 1])
    &&& 1 <= two_digit_value(s[n - 5], s[n - 4]) <= 12
    &&& 1 <= two_digit_value(s[n - 2], s[n - 1]) <= 31
}

/// Today's date in UTC, formatted `%Y-%m-%d` (`chrono::DateTime::format` of
/// the current system time). Which date it is depends on the clock and is not
/// stated; its form is: chrono documents `%Y` as the year zero-padded to four
/// digits (with a sign before 1 BCE and after 9999 CE), and `%m` and `%d` as
/// the month (01 to 12) and day (01 to 31) zero-padded to two digits.
#[verifier::external_body]
pub(crate) fn today_datestamp() -> (r: String)
    ensures
        is_datestamp(r@),
{
    let datetime: chrono::DateTime<chrono::Utc> = std::time::SystemTime::now().into();
    datetime.format("%Y-%m-%d").to_string()
}

impl DatestampReplacementStrategy {
    /// Replaces `{DATESTAMP}` by the given date.
    pub fn apply_with_date(script_content: &mut String, datestamp: &str)
        ensures
            final(script_content)@ == replace_spec(
                old(script_content)@,
                datestamp_placeholder(),
                datestamp@,
            ),
    {
        proof {
            reveal_strlit("{DATESTAMP}");
            assert("{DATESTAMP}"@ =~= datestamp_placeholder());
        }
        *script_content = replace_all(script_content.as_str(), "{DATESTAMP}", datestamp);
    }
}

impl ScriptTemplateReplacementStrategy for DatestampReplacementStrategy {
    fn apply(&self, context: &ScriptTemplateContext<'_>, script_content: &mut String)
        ensures
            exists|date: Seq<char>|
                is_datestamp(date) && final(script_content)@ == replace_spec(
                    old(script_content)@,
                    datestamp_placeholder(),
                    date,
                ),
    {
        let date = today_datestamp();
        Self::apply_with_date(script_content, date.as_str());
    }
}

/// A template rendered with a given date: the mod launch parameter, then the
/// pack name, then the date are substituted.
pub open spec fn rendered_template(
    template: Seq<char>,
    pack_name: Seq<char>,
    mod_launch_param: Seq<char>,
    date: Seq<char>,
) -> Seq<char> {
    replace_spec(
        replace_spec(
            replace_spec(template, mod_launch_param_placeholder(), mod_launch_param),
            deployed_pack_placeholder(),
            pack_name,
        ),
        datestamp_placeholder(),
        date,
    )
}

/// Renders a template with the given date, applying the mod launch parameter,
/// pack name and date replacements in that order.
pub fn render_script_template_on(
    context: &ScriptTemplateContext<'_>,
    script_content: &mut String,
    datestamp: &str,
)
    ensures
        final(script_content)@ == rendered_template(
            old(script_content)@,
            context.pack_name@,
            context.mod_launch_param@,
            datestamp@,
        ),
{
    ModLaunchParamReplacementStrategy.apply(context, script_content);
    DeployedPackNameReplacementStrategy.apply(context, script_content);
    DatestampReplacementStrategy::apply_with_date(script_content, datestamp);
}

/// Renders a template in place with today's date.
pub fn render_script_template(context: &ScriptTemplateContext<'_>, script_content: &mut String)
    ensures
        exists|date: Seq<char>|
            is_datestamp(date) && final(script_content)@ == rendered_template(
                old(script_content)@,
                context.pack_name@,
                context.mod_launch_param@,
                date,
            ),
{
    let date = today_datestamp();
    render_script_template_on(context, script_content, date.as_str());
}

/// A template holding none of the placeholders is deployed unchanged,
/// whatever the pack, mod launch parameter and date.
pub proof fn lemma_template_without_placeholders_unchanged(
    template: Seq<char>,
    pack_name: Seq<char>,
    mod_launch_param: Seq<char>,
    date: Seq<char>,
)
    requires
        forall|i: int| !occurs_at(template, mod_launch_param_placeholder(), i),
        forall|i: int| !occurs_at(template, deployed_pack_placeholder(), i),
        forall|i: int| !occurs_at(template, datestamp_placeholder(), i),
    ensures
        rendered_template(template, pack_name, mod_launch_param, date) == template,
{
    lemma_replace_absent(template, mod_launch_param_placeholder(), mod_launch_param);
    lemma_replace_absent(template, deployed_pack_placeholder(), pack_name);
    lemma_replace_absent(template, datestamp_placeholder(), date);
}

} // verus!
