//! When a service is started again.
use vstd::prelude::*;
use vstd::string::*;
use crate::config::config_value::{collect_static, known_texts, static_texts, ConfigValue};
use crate::text::{
    concat3, is_space, join, joined, lemma_span_unique, lemma_trimmed_fixed, same, split,
    split_at_all, trim, trimmed, views,
};

verus! {

/// A set of occasions on which a service is started again.
#[derive(Debug, Clone, Copy, PartialEq, Eq, Structural)]
pub struct RestartPolicy {
    flags: u8,
}

/// The flag for an exit with a code other than zero, or without a code.
pub const ON_FAILURE: u8 = 1;

/// The flag for an exit with code zero.
pub const ON_SUCCESS: u8 = 2;

/// The flag for a failed health check.
pub const ON_UNHEALTHY: u8 = 4;

/// All flags.
pub const ALWAYS: u8 = 7;

/// The flags of one word of a policy, and whether the word is `no`.
pub open spec fn word_flags(word: Seq<char>) -> Option<(u8, bool)> {
    if word == "no"@ {
        Some((0u8, true))
    } else if word == "on-failure"@ {
        Some((ON_FAILURE, false))
    } else if word == "on-success"@ {
        Some((ON_SUCCESS, false))
    } else if word == "on-unhealthy"@ {
        Some((ON_UNHEALTHY, false))
    } else if word == "always"@ {
        Some((ALWAYS, false))
    } else {
        None
    }
}

/// The flags of a list of words and whether `no` is among them, or the message on the first
/// word that is none.
pub open spec fn words_flags(words: Seq<Seq<char>>) -> Result<(u8, bool), Seq<char>>
    decreases words.len(),
{
    if words.len() == 0 {
        Ok((0u8, false))
    } else {
        match words_flags(words.drop_last()) {
            Err(e) => Err(e),
            Ok((flags, no)) => match word_flags(words.last()) {
                Some((f, n)) => Ok((flags | f, no || n)),
                None => Err(
                    "unknown restart policy flag `"@ + words.last()
                        + "`. Valid flags: no, on-failure, on-success, on-unhealthy, always"@,
                ),
            },
        }
    }
}

/// The words of a policy: what stands between the bars, without white space around it.
pub open spec fn policy_words(s: Seq<char>) -> Seq<Seq<char>> {
    split_at_all(s, '|').map_values(|w: Seq<char>| trimmed(w))
}

/// The flags that a policy reads as, or why it is none.
pub open spec fn read_policy(s: Seq<char>) -> Result<u8, Seq<char>> {
    match words_flags(policy_words(s)) {
        Err(e) => Err(e),
        Ok((flags, no)) => if no && flags != 0 {
            Err("`no` cannot be combined with other restart flags"@)
        } else {
            Ok(flags)
        },
    }
}

/// The words for the flags, in a fixed order.
pub open spec fn flag_words(flags: u8) -> Seq<Seq<char>> {
    (if flags & ON_FAILURE != 0 {
        seq!["on-failure"@]
    } else {
        seq![]
    }) + (if flags & ON_SUCCESS != 0 {
        seq!["on-success"@]
    } else {
        seq![]
    }) + (if flags & ON_UNHEALTHY != 0 {
        seq!["on-unhealthy"@]
    } else {
        seq![]
    })
}

/// The notation of a policy.
pub open spec fn policy_text(flags: u8) -> Seq<char> {
    if flags == 0 {
        "no"@
    } else if flags == ALWAYS {
        "always"@
    } else {
        joined(flag_words(flags), "|"@)
    }
}

impl RestartPolicy {
    /// The flags of the policy.
    pub closed spec fn flags(self) -> u8 {
        self.flags
    }

    #[verifier::type_invariant]
    spec fn inv(self) -> bool {
        self.flags <= ALWAYS
    }

    /// Never.
    pub fn no() -> (r: Self)
        ensures
            r.flags() == 0,
    {
        RestartPolicy { flags: 0 }
    }

    /// On failure.
    pub fn on_failure() -> (r: Self)
        ensures
            r.flags() == ON_FAILURE,
    {
        RestartPolicy { flags: ON_FAILURE }
    }

    /// On success.
    pub fn on_success() -> (r: Self)
        ensures
            r.flags() == ON_SUCCESS,
    {
        RestartPolicy { flags: ON_SUCCESS }
    }

    /// When a health check fails.
    pub fn on_unhealthy() -> (r: Self)
        ensures
            r.flags() == ON_UNHEALTHY,
    {
        RestartPolicy { flags: ON_UNHEALTHY }
    }

    /// On every occasion.
    pub fn always() -> (r: Self)
        ensures
            r.flags() == ALWAYS,
    {
        RestartPolicy { flags: ALWAYS }
    }

    /// Whether one of the given flags is set.
    pub fn contains(&self, flag: u8) -> (r: bool)
        ensures
            r == (self.flags() & flag != 0),
    {
        self.flags & flag != 0
    }

    /// Whether no flag is set.
    pub fn is_no(&self) -> (r: bool)
        ensures
            r == (self.flags() == 0),
    {
        self.flags == 0
    }

    /// Whether the service is started again after an exit with this code.
    pub open spec fn restarts_after(self, exit_code: Option<i32>) -> bool {
        if exit_code == Some(0i32) {
            self.flags() & ON_SUCCESS != 0
        } else {
            self.flags() & ON_FAILURE != 0
        }
    }

    /// Whether the service is started again after an exit with this code.
    pub fn should_restart_on_exit(&self, exit_code: Option<i32>) -> (r: bool)
        ensures
            r == self.restarts_after(exit_code),
    {
        match exit_code {
            Some(0) => self.contains(ON_SUCCESS),
            _ => self.contains(ON_FAILURE),
        }
    }

    /// Whether the service is started again when a health check fails.
    pub fn should_restart_on_unhealthy(&self) -> (r: bool)
        ensures
            r == (self.flags() & ON_UNHEALTHY != 0),
    {
        self.contains(ON_UNHEALTHY)
    }

    /// Reads a policy such as `on-failure|on-unhealthy`.
    pub fn parse(s: &str) -> (r: Result<Self, String>)
        ensures
            match r {
                Ok(p) => read_policy(s@) == Ok::<u8, Seq<char>>(p.flags()),
                Err(e) => read_policy(s@) == Err::<u8, Seq<char>>(e@),
            },
    {
        let parts = split(s, '|');
        let ghost words = policy_words(s@);
        let mut flags: u8 = 0;
        let mut has_no: bool = false;
        let mut i: usize = 0;
        while i < parts.len()
            invariant
                i <= parts@.len(),
                views(parts@) == split_at_all(s@, '|'),
                words == policy_words(s@),
                flags <= 7,
                words_flags(words.take(i as int)) == Ok::<(u8, bool), Seq<char>>((flags, has_no)),
            decreases parts@.len() - i,
        {
            let word = trim(parts[i].as_str());
            proof {
                assert(views(parts@)[i as int] == parts@[i as int]@);
                assert(words[i as int] == word@);
                assert(words.take(i + 1).drop_last() == words.take(i as int));
                assert(words.take(i + 1).last() == word@);
                assert(forall|x: u8, y: u8| x <= 7 && y <= 7 ==> (#[trigger] (x | y)) <= 7)
                    by (bit_vector);
                assert(forall|x: u8| (#[trigger] (x | 0u8)) == x) by (bit_vector);
            }
            if same(word.as_str(), "no") {
                has_no = true;
            } else if same(word.as_str(), "on-failure") {
                flags = flags | ON_FAILURE;
            } else if same(word.as_str(), "on-success") {
                flags = flags | ON_SUCCESS;
            } else if same(word.as_str(), "on-unhealthy") {
                flags = flags | ON_UNHEALTHY;
            } else if same(word.as_str(), "always") {
                flags = flags | ALWAYS;
            } else {
                proof {
                    lemma_words_error(words, i + 1, words.len() as int);
                    assert(words.take(words.len() as int) == words);
                }
                return Err(
                    concat3(
                        "unknown restart policy flag `",
                        word.as_str(),
                        "`. Valid flags: no, on-failure, on-success, on-unhealthy, always",
                    ),
                );
            }
            i += 1;
        }
        assert(words.take(i as int) == words);
        if has_no && flags != 0 {
            return Err("`no` cannot be combined with other restart flags".to_owned());
        }
        Ok(RestartPolicy { flags })
    }

    /// The notation of the policy, which reads as the policy again.
    pub fn to_string_repr(&self) -> (r: String)
        ensures
            r@ == policy_text(self.flags()),
            self.flags() <= ALWAYS,
            read_policy(r@) == Ok::<u8, Seq<char>>(self.flags()),
    {
        proof {
            use_type_invariant(self);
            law_policy_round_trip(self.flags());
        }
        if self.is_no() {
            return "no".to_owned();
        }
        if self.flags == ALWAYS {
            return "always".to_owned();
        }
        let mut parts: Vec<String> = Vec::new();
        if self.contains(ON_FAILURE) {
            parts.push("on-failure".to_owned());
        }
        if self.contains(ON_SUCCESS) {
            parts.push("on-success".to_owned());
        }
        if self.contains(ON_UNHEALTHY) {
            parts.push("on-unhealthy".to_owned());
        }
        assert(views(parts@) == flag_words(self.flags()));
        join(&parts, "|")
    }
}

impl Default for RestartPolicy {
    fn default() -> (r: Self)
        ensures
            r.flags() == 0,
    {
        RestartPolicy { flags: 0 }
    }
}

/// The message on a word is the message on every longer list.
proof fn lemma_words_error(words: Seq<Seq<char>>, n: int, m: int)
    requires
        0 <= n <= m <= words.len(),
        words_flags(words.take(n)) is Err,
    ensures
        words_flags(words.take(m)) == words_flags(words.take(n)),
    decreases m,
{
    if n < m {
        lemma_words_error(words, n, m - 1);
        assert(words.take(m).drop_last() == words.take(m - 1));
    }
}

/// Text without a bar is one word.
proof fn lemma_one_word(w: Seq<char>)
    requires
        w.len() > 0,
        forall|j: int| 0 <= j < w.len() ==> #[trigger] w[j] != '|',
        !is_space(w[0]),
        !is_space(w.last()),
    ensures
        policy_words(w) == seq![w],
        split_at_all(w, '|') == seq![w],
{
    lemma_span_unique(w, '|', w.len() as int);
    lemma_trimmed_fixed(w);
    assert(policy_words(w) =~= seq![w]);
}

/// A word in front of a bar is the first word.
proof fn lemma_first_word(w: Seq<char>, rest: Seq<char>)
    requires
        w.len() > 0,
        forall|j: int| 0 <= j < w.len() ==> #[trigger] w[j] != '|',
        !is_space(w[0]),
        !is_space(w.last()),
    ensures
        policy_words(w + seq!['|'] + rest) == seq![w] + policy_words(rest),
{
    let s = w + seq!['|'] + rest;
    assert forall|j: int| 0 <= j < w.len() implies #[trigger] s[j] != '|' by {
        assert(s[j] == w[j]);
    }
    assert(s[w.len() as int] == '|');
    lemma_span_unique(s, '|', w.len() as int);
    assert(s.take(w.len() as int) == w);
    assert(s.skip(w.len() as int + 1) == rest);
    assert(split_at_all(s, '|') == seq![w] + split_at_all(rest, '|'));
    lemma_trimmed_fixed(w);
    assert(policy_words(s) =~= seq![w] + policy_words(rest));
}

proof fn lemma_two_words(a: Seq<char>, b: Seq<char>)
    requires
        word_flags(a) is Some,
        word_flags(b) is Some,
    ensures
        words_flags(seq![a, b]) == Ok::<(u8, bool), Seq<char>>(
            (0u8 | (word_flags(a)->0).0 | (word_flags(b)->0).0, (word_flags(a)->0).1 || (word_flags(b)->0).1),
        ),
        words_flags(seq![a]) == Ok::<(u8, bool), Seq<char>>(
            (0u8 | (word_flags(a)->0).0, (word_flags(a)->0).1),
        ),
{
    assert(seq![a].drop_last() == Seq::<Seq<char>>::empty());
    assert(words_flags(Seq::<Seq<char>>::empty()) == Ok::<(u8, bool), Seq<char>>((0u8, false)));
    assert(seq![a, b].drop_last() == seq![a]);
}

/// Reading what was written gives back the policy.
pub proof fn law_policy_round_trip(flags: u8)
    requires
        flags <= ALWAYS,
    ensures
        read_policy(policy_text(flags)) == Ok::<u8, Seq<char>>(flags),
{
    reveal_strlit("no");
    reveal_strlit("on-failure");
    reveal_strlit("on-success");
    reveal_strlit("on-unhealthy");
    reveal_strlit("always");
    reveal_strlit("|");
    let f = "on-failure"@;
    let s = "on-success"@;
    let u = "on-unhealthy"@;
    assert("|"@ =~= seq!['|']);
    lemma_one_word("no"@);
    lemma_one_word("always"@);
    lemma_one_word(f);
    lemma_one_word(s);
    lemma_one_word(u);
    lemma_first_word(f, s);
    lemma_first_word(f, u);
    lemma_first_word(s, u);
    assert("no"@.len() == 2 && "always"@.len() == 6 && f.len() == 10 && s.len() == 10 && u.len()
        == 12);
    assert(f[3] == 'f' && s[3] == 's');
    lemma_two_words("no"@, f);
    lemma_two_words("always"@, f);
    lemma_two_words(f, s);
    lemma_two_words(f, u);
    lemma_two_words(s, u);
    lemma_two_words(u, u);
    assert(seq![f] + seq![s] =~= seq![f, s]);
    assert(seq![f] + seq![u] =~= seq![f, u]);
    assert(seq![s] + seq![u] =~= seq![s, u]);
    assert(0u8 | 1u8 == 1 && 0u8 | 2u8 == 2 && 0u8 | 4u8 == 4 && 0u8 | 7u8 == 7 && 0u8 | 0u8 == 0
        && 1u8 | 2u8 == 3 && 1u8 | 4u8 == 5 && 2u8 | 4u8 == 6) by (bit_vector);
    assert(flags & 1 != 0 <==> flags == 1 || flags == 3 || flags == 5 || flags == 7)
        by (bit_vector)
        requires
            flags <= 7,
    ;
    assert(flags & 2 != 0 <==> flags == 2 || flags == 3 || flags == 6 || flags == 7)
        by (bit_vector)
        requires
            flags <= 7,
    ;
    assert(flags & 4 != 0 <==> flags == 4 || flags == 5 || flags == 6 || flags == 7)
        by (bit_vector)
        requires
            flags <= 7,
    ;
    if flags == 1 {
        assert(flag_words(flags) =~= seq![f]);
    } else if flags == 2 {
        assert(flag_words(flags) =~= seq![s]);
    } else if flags == 4 {
        assert(flag_words(flags) =~= seq![u]);
    } else if flags == 3 {
        assert(flag_words(flags) =~= seq![f, s]);
        assert(seq![f, s].drop_last() =~= seq![f]);
        assert(joined(seq![f], "|"@) == f);
        assert(policy_text(flags) == f + seq!['|'] + s);
        assert(policy_words(policy_text(flags)) == seq![f, s]);
    } else if flags == 5 {
        assert(flag_words(flags) =~= seq![f, u]);
        assert(seq![f, u].drop_last() =~= seq![f]);
        assert(joined(seq![f], "|"@) == f);
        assert(policy_text(flags) == f + seq!['|'] + u);
        assert(policy_words(policy_text(flags)) == seq![f, u]);
    } else if flags == 6 {
        assert(flag_words(flags) =~= seq![s, u]);
        assert(seq![s, u].drop_last() =~= seq![s]);
        assert(joined(seq![s], "|"@) == s);
        assert(policy_text(flags) == s + seq!['|'] + u);
        assert(policy_words(policy_text(flags)) == seq![s, u]);
    }
}

/// When a service is started again: a policy, and with the extended form also the files whose
/// change starts it again.
#[derive(Debug)]
pub enum RestartConfig {
    Simple(RestartPolicy),
    Extended { policy: RestartPolicy, watch: ConfigValue<Vec<ConfigValue<String>>> },
}

impl Default for RestartConfig {
    fn default() -> (r: Self)
        ensures
            r matches RestartConfig::Simple(p) && p.flags() == 0,
    {
        RestartConfig::Simple(RestartPolicy::no())
    }
}

impl Clone for RestartConfig {
    fn clone(&self) -> (r: Self)
        ensures
            match (*self, r) {
                (RestartConfig::Simple(a), RestartConfig::Simple(b)) => a == b,
                (
                    RestartConfig::Extended { policy: a, watch: v },
                    RestartConfig::Extended { policy: b, watch: w },
                ) => a == b && cloned(v, w),
                _ => false,
            },
    {
        match self {
            RestartConfig::Simple(p) => RestartConfig::Simple(*p),
            RestartConfig::Extended { policy, watch } => RestartConfig::Extended {
                policy: *policy,
                watch: watch.clone(),
            },
        }
    }
}

impl RestartConfig {
    /// The policy.
    pub open spec fn the_policy(self) -> RestartPolicy {
        match self {
            RestartConfig::Simple(p) => p,
            RestartConfig::Extended { policy, .. } => policy,
        }
    }

    /// The known patterns of watched files.
    pub open spec fn patterns(self) -> Seq<Seq<char>> {
        match self {
            RestartConfig::Simple(_) => seq![],
            RestartConfig::Extended { watch, .. } => static_texts(watch),
        }
    }

    /// The policy.
    pub fn policy(&self) -> (r: &RestartPolicy)
        ensures
            *r == self.the_policy(),
    {
        match self {
            RestartConfig::Simple(p) => p,
            RestartConfig::Extended { policy, .. } => policy,
        }
    }

    /// The known patterns of watched files; computed ones come when the service starts.
    pub fn watch_patterns(&self) -> (r: Vec<String>)
        ensures
            views(r@) == self.patterns(),
    {
        match self {
            RestartConfig::Simple(_) => {
                let r: Vec<String> = Vec::new();
                assert(views(r@) == Seq::<Seq<char>>::empty());
                r
            },
            RestartConfig::Extended { watch, .. } => collect_static(watch),
        }
    }

    /// Whether the service is started again after an exit with this code.
    pub fn should_restart_on_exit(&self, exit_code: Option<i32>) -> (r: bool)
        ensures
            r == self.the_policy().restarts_after(exit_code),
    {
        self.policy().should_restart_on_exit(exit_code)
    }

    /// Whether the service is started again when a health check fails.
    pub fn should_restart_on_unhealthy(&self) -> (r: bool)
        ensures
            r == (self.the_policy().flags() & ON_UNHEALTHY != 0),
    {
        self.policy().should_restart_on_unhealthy()
    }

    /// Whether a change of files starts the service again.
    pub fn should_restart_on_file_change(&self) -> (r: bool)
        ensures
            r == (self.patterns().len() > 0),
    {
        let patterns = self.watch_patterns();
        assert(views(patterns@).len() == patterns@.len());
        patterns.len() > 0
    }

    /// The message on a configuration that watches files and never restarts.
    pub open spec fn fault(self) -> Option<Seq<char>> {
        if self.patterns().len() > 0 && self.the_policy().flags() == 0 {
            Some(
                "watch patterns require restart to be enabled (policy: always or on-failure)"@,
            )
        } else {
            None
        }
    }

    /// Watching files needs a policy other than `no`.
    pub fn validate(&self) -> (r: Result<(), String>)
        ensures
            match r {
                Ok(_) => self.fault() is None,
                Err(e) => self.fault() == Some(e@),
            },
    {
        if self.should_restart_on_file_change() && self.policy().is_no() {
            return Err(
                "watch patterns require restart to be enabled (policy: always or on-failure)".to_owned(),
            );
        }
        Ok(())
    }
}

/// What the flags of the plain policies and their unions hold.
proof fn lemma_flag_bits()
    ensures
        0u8 & ON_FAILURE == 0,
        0u8 & ON_SUCCESS == 0,
        0u8 & ON_UNHEALTHY == 0,
        ON_FAILURE & ON_FAILURE != 0,
        ON_FAILURE & ON_SUCCESS == 0,
        ON_FAILURE & ON_UNHEALTHY == 0,
        ON_SUCCESS & ON_FAILURE == 0,
        ON_SUCCESS & ON_SUCCESS != 0,
        ON_SUCCESS & ON_UNHEALTHY == 0,
        ON_UNHEALTHY & ON_FAILURE == 0,
        ON_UNHEALTHY & ON_SUCCESS == 0,
        ON_UNHEALTHY & ON_UNHEALTHY != 0,
        ALWAYS & ON_FAILURE != 0,
        ALWAYS & ON_SUCCESS != 0,
        ALWAYS & ON_UNHEALTHY != 0,
        forall|x: u8, y: u8|
            (#[trigger] (x | y)) & ON_FAILURE != 0 <==> x & ON_FAILURE != 0 || y & ON_FAILURE != 0,
        forall|x: u8, y: u8|
            (#[trigger] (x | y)) & ON_SUCCESS != 0 <==> x & ON_SUCCESS != 0 || y & ON_SUCCESS != 0,
        forall|x: u8, y: u8|
            (#[trigger] (x | y)) & ON_UNHEALTHY != 0 <==> x & ON_UNHEALTHY != 0 || y & ON_UNHEALTHY
                != 0,
{
    assert(0u8 & 1 == 0 && 0u8 & 2 == 0 && 0u8 & 4 == 0 && 1u8 & 1 == 1 && 1u8 & 2 == 0 && 1u8 & 4
        == 0 && 2u8 & 1 == 0 && 2u8 & 2 == 2 && 2u8 & 4 == 0 && 4u8 & 1 == 0 && 4u8 & 2 == 0
        && 4u8 & 4 == 4 && 7u8 & 1 == 1 && 7u8 & 2 == 2 && 7u8 & 4 == 4) by (bit_vector);
    assert(forall|x: u8, y: u8|
        (#[trigger] (x | y)) & 1u8 != 0 <==> x & 1u8 != 0 || y & 1u8 != 0) by (bit_vector);
    assert(forall|x: u8, y: u8|
        (#[trigger] (x | y)) & 2u8 != 0 <==> x & 2u8 != 0 || y & 2u8 != 0) by (bit_vector);
    assert(forall|x: u8, y: u8|
        (#[trigger] (x | y)) & 4u8 != 0 <==> x & 4u8 != 0 || y & 4u8 != 0) by (bit_vector);
}

/// The plain policies start a service again after these exits and no others: `on-failure` after a
/// code other than 0 and after no code, `on-success` after code 0, `on-unhealthy` after none,
/// `always` after every exit, `no` after none.
pub proof fn law_plain_policies(
    no: RestartPolicy,
    failure: RestartPolicy,
    success: RestartPolicy,
    unhealthy: RestartPolicy,
    always: RestartPolicy,
    code: Option<i32>,
    r: bool,
)
    requires
        call_ensures(RestartPolicy::no, (), no),
        call_ensures(RestartPolicy::on_failure, (), failure),
        call_ensures(RestartPolicy::on_success, (), success),
        call_ensures(RestartPolicy::on_unhealthy, (), unhealthy),
        call_ensures(RestartPolicy::always, (), always),
    ensures
        call_ensures(RestartPolicy::should_restart_on_exit, (&no, code), r) ==> !r,
        call_ensures(RestartPolicy::should_restart_on_exit, (&failure, code), r) ==> (r <==> code
            != Some(0i32)),
        call_ensures(RestartPolicy::should_restart_on_exit, (&success, code), r) ==> (r <==> code
            == Some(0i32)),
        call_ensures(RestartPolicy::should_restart_on_exit, (&unhealthy, code), r) ==> !r,
        call_ensures(RestartPolicy::should_restart_on_exit, (&always, code), r) ==> r,
        call_ensures(RestartPolicy::should_restart_on_unhealthy, (&no,), r) ==> !r,
        call_ensures(RestartPolicy::should_restart_on_unhealthy, (&failure,), r) ==> !r,
        call_ensures(RestartPolicy::should_restart_on_unhealthy, (&success,), r) ==> !r,
        call_ensures(RestartPolicy::should_restart_on_unhealthy, (&unhealthy,), r) ==> r,
        call_ensures(RestartPolicy::should_restart_on_unhealthy, (&always,), r) ==> r,
        call_ensures(RestartPolicy::is_no, (&no,), r) ==> r,
        call_ensures(RestartPolicy::is_no, (&failure,), r) ==> !r,
        call_ensures(RestartPolicy::is_no, (&always,), r) ==> !r,
{
    lemma_flag_bits();
}

/// The words of a policy and the exits after which each starts a service again.
proof fn lemma_words_restart(words: Seq<Seq<char>>)
    ensures
        words_flags(words) matches Ok((flags, no)) ==> {
            &&& flags & ON_FAILURE != 0 <==> words.contains("on-failure"@) || words.contains(
                "always"@,
            )
            &&& flags & ON_SUCCESS != 0 <==> words.contains("on-success"@) || words.contains(
                "always"@,
            )
            &&& flags & ON_UNHEALTHY != 0 <==> words.contains("on-unhealthy"@) || words.contains(
                "always"@,
            )
            &&& no <==> words.contains("no"@)
        },
        words_flags(words) is Ok <==> forall|i: int|
            0 <= i < words.len() ==> {
                ||| (#[trigger] words[i]) == "no"@
                ||| words[i] == "on-failure"@
                ||| words[i] == "on-success"@
                ||| words[i] == "on-unhealthy"@
                ||| words[i] == "always"@
            },
    decreases words.len(),
{
    lemma_flag_bits();
    reveal_strlit("no");
    reveal_strlit("on-failure");
    reveal_strlit("on-success");
    reveal_strlit("on-unhealthy");
    reveal_strlit("always");
    assert("on-failure"@[3] == 'f' && "on-success"@[3] == 's');
    assert("no"@.len() == 2 && "always"@.len() == 6 && "on-failure"@.len() == 10
        && "on-success"@.len() == 10 && "on-unhealthy"@.len() == 12);
    if words.len() > 0 {
        let front = words.drop_last();
        let last = words.last();
        lemma_words_restart(front);
        assert forall|w: Seq<char>| #[trigger] words.contains(w) <==> front.contains(w) || w
            == last by {
            if words.contains(w) {
                let i = words.index_of(w);
                if i < front.len() {
                    assert(front[i] == w);
                }
            }
            if front.contains(w) {
                assert(words[front.index_of(w)] == w);
            }
            assert(words[words.len() - 1] == last);
        }
        assert(forall|i: int| 0 <= i < front.len() ==> words[i] == front[i]);
        if words_flags(words) is Ok {
            assert(word_flags(last) is Some);
        }
    }
}

/// A policy starts a service again on the occasions that its words name, together: `always` names
/// all of them. `no` stands alone, and no other words are known.
pub proof fn law_policy_is_the_union_of_its_words(s: &str, r: Result<RestartPolicy, String>)
    requires
        call_ensures(RestartPolicy::parse, (s,), r),
    ensures
        ({
            let words = split_at_all(s@, '|').map_values(|w: Seq<char>| trimmed(w));
            let all = words.contains("always"@);
            match r {
                Ok(p) => {
                    &&& p.restarts_after(Some(0i32)) <==> all || words.contains("on-success"@)
                    &&& forall|code: Option<i32>|
                        code != Some(0i32) ==> (#[trigger] p.restarts_after(code) <==> all
                            || words.contains("on-failure"@))
                    &&& p.flags() & 4 != 0 <==> all || words.contains("on-unhealthy"@)
                    &&& words.contains("no"@) ==> p.flags() == 0
                },
                Err(_) => {
                    ||| exists|i: int|
                        0 <= i < words.len() && (#[trigger] words[i]) != "no"@ && words[i]
                            != "on-failure"@ && words[i] != "on-success"@ && words[i]
                            != "on-unhealthy"@ && words[i] != "always"@
                    ||| words.contains("no"@) && (all || words.contains("on-failure"@)
                        || words.contains("on-success"@) || words.contains("on-unhealthy"@))
                },
            }
        }),
{
    let words = policy_words(s@);
    lemma_words_restart(words);
    lemma_flag_bits();
    if let Ok((flags, no)) = words_flags(words) {
        if no && flags != 0 {
            lemma_some_flag(words);
        }
    }
}

/// Flags that are set come from one of the words.
proof fn lemma_some_flag(words: Seq<Seq<char>>)
    requires
        words_flags(words) matches Ok((flags, no)) && flags != 0,
    ensures
        words.contains("always"@) || words.contains("on-failure"@) || words.contains("on-success"@)
            || words.contains("on-unhealthy"@),
    decreases words.len(),
{
    if words.len() > 0 {
        let front = words.drop_last();
        if word_flags(words.last()) == Some((0u8, true)) {
            let f = words_flags(front)->Ok_0.0;
            assert(f | 0u8 == f) by (bit_vector);
            lemma_some_flag(front);
            if front.contains("always"@) {
                assert(words[front.index_of("always"@)] == "always"@);
            } else if front.contains("on-failure"@) {
                assert(words[front.index_of("on-failure"@)] == "on-failure"@);
            } else if front.contains("on-success"@) {
                assert(words[front.index_of("on-success"@)] == "on-success"@);
            } else {
                assert(words[front.index_of("on-unhealthy"@)] == "on-unhealthy"@);
            }
        } else {
            assert(words[words.len() - 1] == words.last());
        }
    }
}

/// Settings with watched files restart as their policy does. Files are watched only with the
/// extended form, and then the policy must not be `no`.
pub proof fn law_watching_needs_a_policy(
    policy: RestartPolicy,
    items: Vec<ConfigValue<String>>,
    code: Option<i32>,
    r: bool,
    p: bool,
    valid: Result<(), String>,
    plain: Result<(), String>,
    watches: bool,
    plain_watches: bool,
)
    requires
        ({
            let c = RestartConfig::Extended { policy, watch: ConfigValue::Static(items) };
            &&& call_ensures(RestartConfig::should_restart_on_exit, (&c, code), r)
            &&& call_ensures(RestartConfig::validate, (&c,), valid)
            &&& call_ensures(RestartConfig::should_restart_on_file_change, (&c,), watches)
        }),
        call_ensures(RestartPolicy::should_restart_on_exit, (&policy, code), p),
        call_ensures(RestartConfig::validate, (&RestartConfig::Simple(policy),), plain),
        call_ensures(
            RestartConfig::should_restart_on_file_change,
            (&RestartConfig::Simple(policy),),
            plain_watches,
        ),
    ensures
        r == p,
        plain is Ok,
        !plain_watches,
        items@.len() > 0 && items@[0] is Static ==> watches,
        items@.len() == 0 ==> !watches,
        valid is Err <==> watches && policy.flags() == 0,
{
    if items@.len() > 0 && items@[0] is Static {
        lemma_first_known(items@, items@.len());
        assert(items@.take(items@.len() as int) == items@);
    }
}

/// A list whose first text is known has a known text.
proof fn lemma_first_known(items: Seq<ConfigValue<String>>, n: nat)
    requires
        0 < n <= items.len(),
        items[0] is Static,
    ensures
        known_texts(items.take(n as int)).len() > 0,
    decreases n,
{
    assert(items.take(n as int).drop_last() == items.take(n - 1));
    assert(items.take(n as int).last() == items[n - 1]);
    if n > 1 {
        lemma_first_known(items, (n - 1) as nat);
    }
}

} // verus!
