//! What the statements for the persistent store do to its tables.

use super::persistsql;
use super::persistsql::SqlValueView;
use super::persistsql::StatementView;
use super::topics::RequestView;
use crate::messages::publish;
use crate::text;
use vstd::prelude::*;

verus! {

/// Whether a character stands between words.
pub open spec fn is_break(c: char) -> bool {
    c == ' ' || c == '\n' || c == ',' || c == '(' || c == ')'
}

/// The words of a statement.
pub open spec fn words(s: Seq<char>) -> Seq<Seq<char>>
    decreases s.len(),
{
    if s.len() == 0 {
        seq![]
    } else {
        let before = words(s.drop_last());
        if is_break(s.last()) {
            before
        } else if s.len() >= 2 && !is_break(s[s.len() - 2]) {
            before.drop_last().push(before.last().push(s.last()))
        } else {
            before.push(seq![s.last()])
        }
    }
}

proof fn lemma_word(s: Seq<char>, from: int, to: int)
    requires
        0 <= from < to <= s.len(),
        from == 0 || is_break(s[from - 1]),
        forall|i: int| from <= i < to ==> !is_break(#[trigger] s[i]),
    ensures
        words(s.take(to)) == words(s.take(from)).push(s.subrange(from, to)),
    decreases to,
{
    let t = s.take(to);
    assert(t.drop_last() =~= s.take(to - 1));
    assert(t.last() == s[to - 1]);
    if to == from + 1 {
        assert(s.subrange(from, to) =~= seq![s[from]]);
        if t.len() >= 2 {
            assert(t[t.len() - 2] == s[from - 1]);
        }
    } else {
        lemma_word(s, from, to - 1);
        assert(t[t.len() - 2] == s[to - 2]);
        let before = words(s.take(to - 1));
        assert(before.drop_last() =~= words(s.take(from)));
        assert(before.last().push(s[to - 1]) =~= s.subrange(from, to));
    }
}

proof fn lemma_gap(s: Seq<char>, from: int, to: int)
    requires
        0 <= from <= to <= s.len(),
        forall|i: int| from <= i < to ==> is_break(#[trigger] s[i]),
    ensures
        words(s.take(to)) == words(s.take(from)),
    decreases to,
{
    if from < to {
        lemma_gap(s, from, to - 1);
        assert(s.take(to).drop_last() =~= s.take(to - 1));
    }
}

/// The next word of a statement whose words up to some place are known.
proof fn lemma_next_word(
    s: Seq<char>,
    at: int,
    from: int,
    to: int,
    before: Seq<Seq<char>>,
    word: Seq<char>,
) -> (after: Seq<Seq<char>>)
    requires
        words(s.take(at)) == before,
        0 <= at <= from < to <= s.len(),
        at < from || from == 0,
        forall|i: int| at <= i < from ==> is_break(#[trigger] s[i]),
        word.len() == to - from,
        forall|i: int|
            0 <= i < word.len() ==> s[from + i] == #[trigger] word[i] && !is_break(word[i]),
    ensures
        after == before.push(word),
        words(s.take(to)) == after,
{
    lemma_gap(s, at, from);
    assert forall|i: int| from <= i < to implies !is_break(#[trigger] s[i]) by {
        assert(s[from + (i - from)] == word[i - from]);
    }
    lemma_word(s, from, to);
    assert(s.subrange(from, to) =~= word) by {
        assert forall|i: int| 0 <= i < word.len() implies s.subrange(from, to)[i] == word[i] by {
            assert(s[from + i] == word[i]);
        }
    }
    before.push(word)
}

/// Behind the last word there is nothing more.
proof fn lemma_end(s: Seq<char>, at: int, all: Seq<Seq<char>>)
    requires
        words(s.take(at)) == all,
        0 <= at <= s.len(),
        forall|i: int| at <= i < s.len() ==> is_break(#[trigger] s[i]),
    ensures
        words(s) == all,
{
    lemma_gap(s, at, s.len() as int);
    assert(s.take(s.len() as int) =~= s);
}

/// The words of the statement for a new topic.
proof fn lemma_words_insert_topic()
    ensures
        words("INSERT INTO topics(topic) VALUES (:topic) RETURNING id"@) == seq![
            "INSERT"@,
            "INTO"@,
            "topics"@,
            "topic"@,
            "VALUES"@,
            ":topic"@,
            "RETURNING"@,
            "id"@,
        ],
{
    let s = "INSERT INTO topics(topic) VALUES (:topic) RETURNING id"@;
    reveal_strlit("INSERT INTO topics(topic) VALUES (:topic) RETURNING id");
    reveal_strlit("INSERT");
    reveal_strlit("INTO");
    reveal_strlit("topics");
    reveal_strlit("topic");
    reveal_strlit("VALUES");
    reveal_strlit(":topic");
    reveal_strlit("RETURNING");
    reveal_strlit("id");
    let w0: Seq<Seq<char>> = seq![];
    assert(s.take(0) =~= seq![]);
    assert(words(s.take(0)) =~= w0);
    let w1 = lemma_next_word(s, 0, 0, 6, w0, "INSERT"@);
    let w2 = lemma_next_word(s, 6, 7, 11, w1, "INTO"@);
    let w3 = lemma_next_word(s, 11, 12, 18, w2, "topics"@);
    let w4 = lemma_next_word(s, 18, 19, 24, w3, "topic"@);
    let w5 = lemma_next_word(s, 24, 26, 32, w4, "VALUES"@);
    let w6 = lemma_next_word(s, 32, 34, 40, w5, ":topic"@);
    let w7 = lemma_next_word(s, 40, 42, 51, w6, "RETURNING"@);
    let w8 = lemma_next_word(s, 51, 52, 54, w7, "id"@);
    lemma_end(s, 54, w8);
    assert(w8 =~= seq![
        "INSERT"@,
        "INTO"@,
        "topics"@,
        "topic"@,
        "VALUES"@,
        ":topic"@,
        "RETURNING"@,
        "id"@,
    ]);
}

/// The words of the statement for the end of a topic.
proof fn lemma_words_delete_topic()
    ensures
        words("DELETE FROM topics WHERE id = :id"@) == seq![
            "DELETE"@,
            "FROM"@,
            "topics"@,
            "WHERE"@,
            "id"@,
            "="@,
            ":id"@,
        ],
{
    let s = "DELETE FROM topics WHERE id = :id"@;
    reveal_strlit("DELETE FROM topics WHERE id = :id");
    reveal_strlit("DELETE");
    reveal_strlit("FROM");
    reveal_strlit("topics");
    reveal_strlit("WHERE");
    reveal_strlit("id");
    reveal_strlit("=");
    reveal_strlit(":id");
    let w0: Seq<Seq<char>> = seq![];
    assert(s.take(0) =~= seq![]);
    assert(words(s.take(0)) =~= w0);
    let w1 = lemma_next_word(s, 0, 0, 6, w0, "DELETE"@);
    let w2 = lemma_next_word(s, 6, 7, 11, w1, "FROM"@);
    let w3 = lemma_next_word(s, 11, 12, 18, w2, "topics"@);
    let w4 = lemma_next_word(s, 18, 19, 24, w3, "WHERE"@);
    let w5 = lemma_next_word(s, 24, 25, 27, w4, "id"@);
    let w6 = lemma_next_word(s, 27, 28, 29, w5, "="@);
    let w7 = lemma_next_word(s, 29, 30, 33, w6, ":id"@);
    lemma_end(s, 33, w7);
    assert(w7 =~= seq![
        "DELETE"@,
        "FROM"@,
        "topics"@,
        "WHERE"@,
        "id"@,
        "="@,
        ":id"@,
    ]);
}

/// The words of the statement for a new subscription.
proof fn lemma_words_insert_subscription()
    ensures
        words("INSERT INTO subscriptions(session_id, topic_id, qos) VALUES (:session_id, :topic_id, :qos)"@) == seq![
            "INSERT"@,
            "INTO"@,
            "subscriptions"@,
            "session_id"@,
            "topic_id"@,
            "qos"@,
            "VALUES"@,
            ":session_id"@,
            ":topic_id"@,
            ":qos"@,
        ],
{
    let s = "INSERT INTO subscriptions(session_id, topic_id, qos) VALUES (:session_id, :topic_id, :qos)"@;
    reveal_strlit("INSERT INTO subscriptions(session_id, topic_id, qos) VALUES (:session_id, :topic_id, :qos)");
    reveal_strlit("INSERT");
    reveal_strlit("INTO");
    reveal_strlit("subscriptions");
    reveal_strlit("session_id");
    reveal_strlit("topic_id");
    reveal_strlit("qos");
    reveal_strlit("VALUES");
    reveal_strlit(":session_id");
    reveal_strlit(":topic_id");
    reveal_strlit(":qos");
    let w0: Seq<Seq<char>> = seq![];
    assert(s.take(0) =~= seq![]);
    assert(words(s.take(0)) =~= w0);
    let w1 = lemma_next_word(s, 0, 0, 6, w0, "INSERT"@);
    let w2 = lemma_next_word(s, 6, 7, 11, w1, "INTO"@);
    let w3 = lemma_next_word(s, 11, 12, 25, w2, "subscriptions"@);
    let w4 = lemma_next_word(s, 25, 26, 36, w3, "session_id"@);
    let w5 = lemma_next_word(s, 36, 38, 46, w4, "topic_id"@);
    let w6 = lemma_next_word(s, 46, 48, 51, w5, "qos"@);
    let w7 = lemma_next_word(s, 51, 53, 59, w6, "VALUES"@);
    let w8 = lemma_next_word(s, 59, 61, 72, w7, ":session_id"@);
    let w9 = lemma_next_word(s, 72, 74, 83, w8, ":topic_id"@);
    let w10 = lemma_next_word(s, 83, 85, 89, w9, ":qos"@);
    lemma_end(s, 89, w10);
    assert(w10 =~= seq![
        "INSERT"@,
        "INTO"@,
        "subscriptions"@,
        "session_id"@,
        "topic_id"@,
        "qos"@,
        "VALUES"@,
        ":session_id"@,
        ":topic_id"@,
        ":qos"@,
    ]);
}

/// The words of the statement for a changed subscription.
proof fn lemma_words_update_subscription()
    ensures
        words("UPDATE subscriptions SET qos = :qos WHERE session_id = :session_id AND topic_id = :topic_id"@) == seq![
            "UPDATE"@,
            "subscriptions"@,
            "SET"@,
            "qos"@,
            "="@,
            ":qos"@,
            "WHERE"@,
            "session_id"@,
            "="@,
            ":session_id"@,
            "AND"@,
            "topic_id"@,
            "="@,
            ":topic_id"@,
        ],
{
    let s = "UPDATE subscriptions SET qos = :qos WHERE session_id = :session_id AND topic_id = :topic_id"@;
    reveal_strlit("UPDATE subscriptions SET qos = :qos WHERE session_id = :session_id AND topic_id = :topic_id");
    reveal_strlit("UPDATE");
    reveal_strlit("subscriptions");
    reveal_strlit("SET");
    reveal_strlit("qos");
    reveal_strlit("=");
    reveal_strlit(":qos");
    reveal_strlit("WHERE");
    reveal_strlit("session_id");
    reveal_strlit(":session_id");
    reveal_strlit("AND");
    reveal_strlit("topic_id");
    reveal_strlit(":topic_id");
    let w0: Seq<Seq<char>> = seq![];
    assert(s.take(0) =~= seq![]);
    assert(words(s.take(0)) =~= w0);
    let w1 = lemma_next_word(s, 0, 0, 6, w0, "UPDATE"@);
    let w2 = lemma_next_word(s, 6, 7, 20, w1, "subscriptions"@);
    let w3 = lemma_next_word(s, 20, 21, 24, w2, "SET"@);
    let w4 = lemma_next_word(s, 24, 25, 28, w3, "qos"@);
    let w5 = lemma_next_word(s, 28, 29, 30, w4, "="@);
    let w6 = lemma_next_word(s, 30, 31, 35, w5, ":qos"@);
    let w7 = lemma_next_word(s, 35, 36, 41, w6, "WHERE"@);
    let w8 = lemma_next_word(s, 41, 42, 52, w7, "session_id"@);
    let w9 = lemma_next_word(s, 52, 53, 54, w8, "="@);
    let w10 = lemma_next_word(s, 54, 55, 66, w9, ":session_id"@);
    let w11 = lemma_next_word(s, 66, 67, 70, w10, "AND"@);
    let w12 = lemma_next_word(s, 70, 71, 79, w11, "topic_id"@);
    let w13 = lemma_next_word(s, 79, 80, 81, w12, "="@);
    let w14 = lemma_next_word(s, 81, 82, 91, w13, ":topic_id"@);
    lemma_end(s, 91, w14);
    assert(w14 =~= seq![
        "UPDATE"@,
        "subscriptions"@,
        "SET"@,
        "qos"@,
        "="@,
        ":qos"@,
        "WHERE"@,
        "session_id"@,
        "="@,
        ":session_id"@,
        "AND"@,
        "topic_id"@,
        "="@,
        ":topic_id"@,
    ]);
}

/// The words of the statement for the end of a subscription.
proof fn lemma_words_delete_subscription()
    ensures
        words("DELETE FROM subscriptions WHERE session_id = :session_id AND topic_id = :topic_id"@) == seq![
            "DELETE"@,
            "FROM"@,
            "subscriptions"@,
            "WHERE"@,
            "session_id"@,
            "="@,
            ":session_id"@,
            "AND"@,
            "topic_id"@,
            "="@,
            ":topic_id"@,
        ],
{
    let s = "DELETE FROM subscriptions WHERE session_id = :session_id AND topic_id = :topic_id"@;
    reveal_strlit("DELETE FROM subscriptions WHERE session_id = :session_id AND topic_id = :topic_id");
    reveal_strlit("DELETE");
    reveal_strlit("FROM");
    reveal_strlit("subscriptions");
    reveal_strlit("WHERE");
    reveal_strlit("session_id");
    reveal_strlit("=");
    reveal_strlit(":session_id");
    reveal_strlit("AND");
    reveal_strlit("topic_id");
    reveal_strlit(":topic_id");
    let w0: Seq<Seq<char>> = seq![];
    assert(s.take(0) =~= seq![]);
    assert(words(s.take(0)) =~= w0);
    let w1 = lemma_next_word(s, 0, 0, 6, w0, "DELETE"@);
    let w2 = lemma_next_word(s, 6, 7, 11, w1, "FROM"@);
    let w3 = lemma_next_word(s, 11, 12, 25, w2, "subscriptions"@);
    let w4 = lemma_next_word(s, 25, 26, 31, w3, "WHERE"@);
    let w5 = lemma_next_word(s, 31, 32, 42, w4, "session_id"@);
    let w6 = lemma_next_word(s, 42, 43, 44, w5, "="@);
    let w7 = lemma_next_word(s, 44, 45, 56, w6, ":session_id"@);
    let w8 = lemma_next_word(s, 56, 57, 60, w7, "AND"@);
    let w9 = lemma_next_word(s, 60, 61, 69, w8, "topic_id"@);
    let w10 = lemma_next_word(s, 69, 70, 71, w9, "="@);
    let w11 = lemma_next_word(s, 71, 72, 81, w10, ":topic_id"@);
    lemma_end(s, 81, w11);
    assert(w11 =~= seq![
        "DELETE"@,
        "FROM"@,
        "subscriptions"@,
        "WHERE"@,
        "session_id"@,
        "="@,
        ":session_id"@,
        "AND"@,
        "topic_id"@,
        "="@,
        ":topic_id"@,
    ]);
}

/// The words of the statement for a message to be retained.
proof fn lemma_words_insert_message()
    ensures
        words("INSERT INTO messages(qos, topic, payload) VALUES (:qos, :topic, :payload) RETURNING id"@) == seq![
            "INSERT"@,
            "INTO"@,
            "messages"@,
            "qos"@,
            "topic"@,
            "payload"@,
            "VALUES"@,
            ":qos"@,
            ":topic"@,
            ":payload"@,
            "RETURNING"@,
            "id"@,
        ],
{
    let s = "INSERT INTO messages(qos, topic, payload) VALUES (:qos, :topic, :payload) RETURNING id"@;
    reveal_strlit("INSERT INTO messages(qos, topic, payload) VALUES (:qos, :topic, :payload) RETURNING id");
    reveal_strlit("INSERT");
    reveal_strlit("INTO");
    reveal_strlit("messages");
    reveal_strlit("qos");
    reveal_strlit("topic");
    reveal_strlit("payload");
    reveal_strlit("VALUES");
    reveal_strlit(":qos");
    reveal_strlit(":topic");
    reveal_strlit(":payload");
    reveal_strlit("RETURNING");
    reveal_strlit("id");
    let w0: Seq<Seq<char>> = seq![];
    assert(s.take(0) =~= seq![]);
    assert(words(s.take(0)) =~= w0);
    let w1 = lemma_next_word(s, 0, 0, 6, w0, "INSERT"@);
    let w2 = lemma_next_word(s, 6, 7, 11, w1, "INTO"@);
    let w3 = lemma_next_word(s, 11, 12, 20, w2, "messages"@);
    let w4 = lemma_next_word(s, 20, 21, 24, w3, "qos"@);
    let w5 = lemma_next_word(s, 24, 26, 31, w4, "topic"@);
    let w6 = lemma_next_word(s, 31, 33, 40, w5, "payload"@);
    let w7 = lemma_next_word(s, 40, 42, 48, w6, "VALUES"@);
    let w8 = lemma_next_word(s, 48, 50, 54, w7, ":qos"@);
    let w9 = lemma_next_word(s, 54, 56, 62, w8, ":topic"@);
    let w10 = lemma_next_word(s, 62, 64, 72, w9, ":payload"@);
    let w11 = lemma_next_word(s, 72, 74, 83, w10, "RETURNING"@);
    let w12 = lemma_next_word(s, 83, 84, 86, w11, "id"@);
    lemma_end(s, 86, w12);
    assert(w12 =~= seq![
        "INSERT"@,
        "INTO"@,
        "messages"@,
        "qos"@,
        "topic"@,
        "payload"@,
        "VALUES"@,
        ":qos"@,
        ":topic"@,
        ":payload"@,
        "RETURNING"@,
        "id"@,
    ]);
}

/// The words of the statement for the retained message of a topic.
proof fn lemma_words_select_retained()
    ensures
        words("SELECT retained_message_id FROM topics WHERE id = :id"@) == seq![
            "SELECT"@,
            "retained_message_id"@,
            "FROM"@,
            "topics"@,
            "WHERE"@,
            "id"@,
            "="@,
            ":id"@,
        ],
{
    let s = "SELECT retained_message_id FROM topics WHERE id = :id"@;
    reveal_strlit("SELECT retained_message_id FROM topics WHERE id = :id");
    reveal_strlit("SELECT");
    reveal_strlit("retained_message_id");
    reveal_strlit("FROM");
    reveal_strlit("topics");
    reveal_strlit("WHERE");
    reveal_strlit("id");
    reveal_strlit("=");
    reveal_strlit(":id");
    let w0: Seq<Seq<char>> = seq![];
    assert(s.take(0) =~= seq![]);
    assert(words(s.take(0)) =~= w0);
    let w1 = lemma_next_word(s, 0, 0, 6, w0, "SELECT"@);
    let w2 = lemma_next_word(s, 6, 7, 26, w1, "retained_message_id"@);
    let w3 = lemma_next_word(s, 26, 27, 31, w2, "FROM"@);
    let w4 = lemma_next_word(s, 31, 32, 38, w3, "topics"@);
    let w5 = lemma_next_word(s, 38, 39, 44, w4, "WHERE"@);
    let w6 = lemma_next_word(s, 44, 45, 47, w5, "id"@);
    let w7 = lemma_next_word(s, 47, 48, 49, w6, "="@);
    let w8 = lemma_next_word(s, 49, 50, 53, w7, ":id"@);
    lemma_end(s, 53, w8);
    assert(w8 =~= seq![
        "SELECT"@,
        "retained_message_id"@,
        "FROM"@,
        "topics"@,
        "WHERE"@,
        "id"@,
        "="@,
        ":id"@,
    ]);
}

/// The words of the statement for a message that is tied to its topic.
proof fn lemma_words_tie_message()
    ensures
        words("UPDATE topics SET retained_message_id = :retained_message_id WHERE id = :id"@) == seq![
            "UPDATE"@,
            "topics"@,
            "SET"@,
            "retained_message_id"@,
            "="@,
            ":retained_message_id"@,
            "WHERE"@,
            "id"@,
            "="@,
            ":id"@,
        ],
{
    let s = "UPDATE topics SET retained_message_id = :retained_message_id WHERE id = :id"@;
    reveal_strlit("UPDATE topics SET retained_message_id = :retained_message_id WHERE id = :id");
    reveal_strlit("UPDATE");
    reveal_strlit("topics");
    reveal_strlit("SET");
    reveal_strlit("retained_message_id");
    reveal_strlit("=");
    reveal_strlit(":retained_message_id");
    reveal_strlit("WHERE");
    reveal_strlit("id");
    reveal_strlit(":id");
    let w0: Seq<Seq<char>> = seq![];
    assert(s.take(0) =~= seq![]);
    assert(words(s.take(0)) =~= w0);
    let w1 = lemma_next_word(s, 0, 0, 6, w0, "UPDATE"@);
    let w2 = lemma_next_word(s, 6, 7, 13, w1, "topics"@);
    let w3 = lemma_next_word(s, 13, 14, 17, w2, "SET"@);
    let w4 = lemma_next_word(s, 17, 18, 37, w3, "retained_message_id"@);
    let w5 = lemma_next_word(s, 37, 38, 39, w4, "="@);
    let w6 = lemma_next_word(s, 39, 40, 60, w5, ":retained_message_id"@);
    let w7 = lemma_next_word(s, 60, 61, 66, w6, "WHERE"@);
    let w8 = lemma_next_word(s, 66, 67, 69, w7, "id"@);
    let w9 = lemma_next_word(s, 69, 70, 71, w8, "="@);
    let w10 = lemma_next_word(s, 71, 72, 75, w9, ":id"@);
    lemma_end(s, 75, w10);
    assert(w10 =~= seq![
        "UPDATE"@,
        "topics"@,
        "SET"@,
        "retained_message_id"@,
        "="@,
        ":retained_message_id"@,
        "WHERE"@,
        "id"@,
        "="@,
        ":id"@,
    ]);
}

/// The words of the statement for a message that is untied from its topic.
proof fn lemma_words_untie_message()
    ensures
        words("UPDATE topics SET retained_message_id = NULL WHERE id = :id"@) == seq![
            "UPDATE"@,
            "topics"@,
            "SET"@,
            "retained_message_id"@,
            "="@,
            "NULL"@,
            "WHERE"@,
            "id"@,
            "="@,
            ":id"@,
        ],
{
    let s = "UPDATE topics SET retained_message_id = NULL WHERE id = :id"@;
    reveal_strlit("UPDATE topics SET retained_message_id = NULL WHERE id = :id");
    reveal_strlit("UPDATE");
    reveal_strlit("topics");
    reveal_strlit("SET");
    reveal_strlit("retained_message_id");
    reveal_strlit("=");
    reveal_strlit("NULL");
    reveal_strlit("WHERE");
    reveal_strlit("id");
    reveal_strlit(":id");
    let w0: Seq<Seq<char>> = seq![];
    assert(s.take(0) =~= seq![]);
    assert(words(s.take(0)) =~= w0);
    let w1 = lemma_next_word(s, 0, 0, 6, w0, "UPDATE"@);
    let w2 = lemma_next_word(s, 6, 7, 13, w1, "topics"@);
    let w3 = lemma_next_word(s, 13, 14, 17, w2, "SET"@);
    let w4 = lemma_next_word(s, 17, 18, 37, w3, "retained_message_id"@);
    let w5 = lemma_next_word(s, 37, 38, 39, w4, "="@);
    let w6 = lemma_next_word(s, 39, 40, 44, w5, "NULL"@);
    let w7 = lemma_next_word(s, 44, 45, 50, w6, "WHERE"@);
    let w8 = lemma_next_word(s, 50, 51, 53, w7, "id"@);
    let w9 = lemma_next_word(s, 53, 54, 55, w8, "="@);
    let w10 = lemma_next_word(s, 55, 56, 59, w9, ":id"@);
    lemma_end(s, 59, w10);
    assert(w10 =~= seq![
        "UPDATE"@,
        "topics"@,
        "SET"@,
        "retained_message_id"@,
        "="@,
        "NULL"@,
        "WHERE"@,
        "id"@,
        "="@,
        ":id"@,
    ]);
}

/// The words of the statement for the end of a message.
proof fn lemma_words_delete_message()
    ensures
        words("DELETE FROM messages WHERE id = :id"@) == seq![
            "DELETE"@,
            "FROM"@,
            "messages"@,
            "WHERE"@,
            "id"@,
            "="@,
            ":id"@,
        ],
{
    let s = "DELETE FROM messages WHERE id = :id"@;
    reveal_strlit("DELETE FROM messages WHERE id = :id");
    reveal_strlit("DELETE");
    reveal_strlit("FROM");
    reveal_strlit("messages");
    reveal_strlit("WHERE");
    reveal_strlit("id");
    reveal_strlit("=");
    reveal_strlit(":id");
    let w0: Seq<Seq<char>> = seq![];
    assert(s.take(0) =~= seq![]);
    assert(words(s.take(0)) =~= w0);
    let w1 = lemma_next_word(s, 0, 0, 6, w0, "DELETE"@);
    let w2 = lemma_next_word(s, 6, 7, 11, w1, "FROM"@);
    let w3 = lemma_next_word(s, 11, 12, 20, w2, "messages"@);
    let w4 = lemma_next_word(s, 20, 21, 26, w3, "WHERE"@);
    let w5 = lemma_next_word(s, 26, 27, 29, w4, "id"@);
    let w6 = lemma_next_word(s, 29, 30, 31, w5, "="@);
    let w7 = lemma_next_word(s, 31, 32, 35, w6, ":id"@);
    lemma_end(s, 35, w7);
    assert(w7 =~= seq![
        "DELETE"@,
        "FROM"@,
        "messages"@,
        "WHERE"@,
        "id"@,
        "="@,
        ":id"@,
    ]);
}

/// The words of the statement for the topics.
proof fn lemma_words_select_topics()
    ensures
        words("SELECT id,topic,retained_message_id FROM topics"@) == seq![
            "SELECT"@,
            "id"@,
            "topic"@,
            "retained_message_id"@,
            "FROM"@,
            "topics"@,
        ],
{
    let s = "SELECT id,topic,retained_message_id FROM topics"@;
    reveal_strlit("SELECT id,topic,retained_message_id FROM topics");
    reveal_strlit("SELECT");
    reveal_strlit("id");
    reveal_strlit("topic");
    reveal_strlit("retained_message_id");
    reveal_strlit("FROM");
    reveal_strlit("topics");
    let w0: Seq<Seq<char>> = seq![];
    assert(s.take(0) =~= seq![]);
    assert(words(s.take(0)) =~= w0);
    let w1 = lemma_next_word(s, 0, 0, 6, w0, "SELECT"@);
    let w2 = lemma_next_word(s, 6, 7, 9, w1, "id"@);
    let w3 = lemma_next_word(s, 9, 10, 15, w2, "topic"@);
    let w4 = lemma_next_word(s, 15, 16, 35, w3, "retained_message_id"@);
    let w5 = lemma_next_word(s, 35, 36, 40, w4, "FROM"@);
    let w6 = lemma_next_word(s, 40, 41, 47, w5, "topics"@);
    lemma_end(s, 47, w6);
    assert(w6 =~= seq![
        "SELECT"@,
        "id"@,
        "topic"@,
        "retained_message_id"@,
        "FROM"@,
        "topics"@,
    ]);
}

/// The words of the statement for a message.
proof fn lemma_words_select_message()
    ensures
        words("SELECT id,qos,topic,payload FROM messages WHERE id = :id"@) == seq![
            "SELECT"@,
            "id"@,
            "qos"@,
            "topic"@,
            "payload"@,
            "FROM"@,
            "messages"@,
            "WHERE"@,
            "id"@,
            "="@,
            ":id"@,
        ],
{
    let s = "SELECT id,qos,topic,payload FROM messages WHERE id = :id"@;
    reveal_strlit("SELECT id,qos,topic,payload FROM messages WHERE id = :id");
    reveal_strlit("SELECT");
    reveal_strlit("id");
    reveal_strlit("qos");
    reveal_strlit("topic");
    reveal_strlit("payload");
    reveal_strlit("FROM");
    reveal_strlit("messages");
    reveal_strlit("WHERE");
    reveal_strlit("=");
    reveal_strlit(":id");
    let w0: Seq<Seq<char>> = seq![];
    assert(s.take(0) =~= seq![]);
    assert(words(s.take(0)) =~= w0);
    let w1 = lemma_next_word(s, 0, 0, 6, w0, "SELECT"@);
    let w2 = lemma_next_word(s, 6, 7, 9, w1, "id"@);
    let w3 = lemma_next_word(s, 9, 10, 13, w2, "qos"@);
    let w4 = lemma_next_word(s, 13, 14, 19, w3, "topic"@);
    let w5 = lemma_next_word(s, 19, 20, 27, w4, "payload"@);
    let w6 = lemma_next_word(s, 27, 28, 32, w5, "FROM"@);
    let w7 = lemma_next_word(s, 32, 33, 41, w6, "messages"@);
    let w8 = lemma_next_word(s, 41, 42, 47, w7, "WHERE"@);
    let w9 = lemma_next_word(s, 47, 48, 50, w8, "id"@);
    let w10 = lemma_next_word(s, 50, 51, 52, w9, "="@);
    let w11 = lemma_next_word(s, 52, 53, 56, w10, ":id"@);
    lemma_end(s, 56, w11);
    assert(w11 =~= seq![
        "SELECT"@,
        "id"@,
        "qos"@,
        "topic"@,
        "payload"@,
        "FROM"@,
        "messages"@,
        "WHERE"@,
        "id"@,
        "="@,
        ":id"@,
    ]);
}

/// The words of the statement for the subscriptions to a topic.
proof fn lemma_words_select_subscriptions()
    ensures
        words("SELECT sessions.id, sessions.name, sessions.generation, subscriptions.qos FROM subscriptions
                    INNER JOIN sessions ON sessions.id = subscriptions.session_id
                    WHERE subscriptions.topic_id = :topic_id"@) == seq![
            "SELECT"@,
            "sessions.id"@,
            "sessions.name"@,
            "sessions.generation"@,
            "subscriptions.qos"@,
            "FROM"@,
            "subscriptions"@,
            "INNER"@,
            "JOIN"@,
            "sessions"@,
            "ON"@,
            "sessions.id"@,
            "="@,
            "subscriptions.session_id"@,
            "WHERE"@,
            "subscriptions.topic_id"@,
            "="@,
            ":topic_id"@,
        ],
{
    let s = "SELECT sessions.id, sessions.name, sessions.generation, subscriptions.qos FROM subscriptions
                    INNER JOIN sessions ON sessions.id = subscriptions.session_id
                    WHERE subscriptions.topic_id = :topic_id"@;
    reveal_strlit("SELECT sessions.id, sessions.name, sessions.generation, subscriptions.qos FROM subscriptions
                    INNER JOIN sessions ON sessions.id = subscriptions.session_id
                    WHERE subscriptions.topic_id = :topic_id");
    reveal_strlit("SELECT");
    reveal_strlit("sessions.id");
    reveal_strlit("sessions.name");
    reveal_strlit("sessions.generation");
    reveal_strlit("subscriptions.qos");
    reveal_strlit("FROM");
    reveal_strlit("subscriptions");
    reveal_strlit("INNER");
    reveal_strlit("JOIN");
    reveal_strlit("sessions");
    reveal_strlit("ON");
    reveal_strlit("=");
    reveal_strlit("subscriptions.session_id");
    reveal_strlit("WHERE");
    reveal_strlit("subscriptions.topic_id");
    reveal_strlit(":topic_id");
    let w0: Seq<Seq<char>> = seq![];
    assert(s.take(0) =~= seq![]);
    assert(words(s.take(0)) =~= w0);
    let w1 = lemma_next_word(s, 0, 0, 6, w0, "SELECT"@);
    let w2 = lemma_next_word(s, 6, 7, 18, w1, "sessions.id"@);
    let w3 = lemma_next_word(s, 18, 20, 33, w2, "sessions.name"@);
    let w4 = lemma_next_word(s, 33, 35, 54, w3, "sessions.generation"@);
    let w5 = lemma_next_word(s, 54, 56, 73, w4, "subscriptions.qos"@);
    let w6 = lemma_next_word(s, 73, 74, 78, w5, "FROM"@);
    let w7 = lemma_next_word(s, 78, 79, 92, w6, "subscriptions"@);
    let w8 = lemma_next_word(s, 92, 113, 118, w7, "INNER"@);
    let w9 = lemma_next_word(s, 118, 119, 123, w8, "JOIN"@);
    let w10 = lemma_next_word(s, 123, 124, 132, w9, "sessions"@);
    let w11 = lemma_next_word(s, 132, 133, 135, w10, "ON"@);
    let w12 = lemma_next_word(s, 135, 136, 147, w11, "sessions.id"@);
    let w13 = lemma_next_word(s, 147, 148, 149, w12, "="@);
    let w14 = lemma_next_word(s, 149, 150, 174, w13, "subscriptions.session_id"@);
    let w15 = lemma_next_word(s, 174, 195, 200, w14, "WHERE"@);
    let w16 = lemma_next_word(s, 200, 201, 223, w15, "subscriptions.topic_id"@);
    let w17 = lemma_next_word(s, 223, 224, 225, w16, "="@);
    let w18 = lemma_next_word(s, 225, 226, 235, w17, ":topic_id"@);
    lemma_end(s, 235, w18);
    assert(w18 =~= seq![
        "SELECT"@,
        "sessions.id"@,
        "sessions.name"@,
        "sessions.generation"@,
        "subscriptions.qos"@,
        "FROM"@,
        "subscriptions"@,
        "INNER"@,
        "JOIN"@,
        "sessions"@,
        "ON"@,
        "sessions.id"@,
        "="@,
        "subscriptions.session_id"@,
        "WHERE"@,
        "subscriptions.topic_id"@,
        "="@,
        ":topic_id"@,
    ]);
}

/// The words of the statements are told apart.
proof fn lemma_words_differ()
    ensures
        "id"@ != "topic"@,
        "id"@ != "retained_message_id"@,
        "id"@ != "session_id"@,
        "id"@ != "topic_id"@,
        "id"@ != "qos"@,
        "id"@ != "payload"@,
        "id"@ != "name"@,
        "id"@ != "generation"@,
        "topic"@ != "retained_message_id"@,
        "topic"@ != "session_id"@,
        "topic"@ != "topic_id"@,
        "topic"@ != "qos"@,
        "topic"@ != "payload"@,
        "topic"@ != "name"@,
        "topic"@ != "generation"@,
        "retained_message_id"@ != "session_id"@,
        "retained_message_id"@ != "topic_id"@,
        "retained_message_id"@ != "qos"@,
        "retained_message_id"@ != "payload"@,
        "retained_message_id"@ != "name"@,
        "retained_message_id"@ != "generation"@,
        "session_id"@ != "topic_id"@,
        "session_id"@ != "qos"@,
        "session_id"@ != "payload"@,
        "session_id"@ != "name"@,
        "session_id"@ != "generation"@,
        "topic_id"@ != "qos"@,
        "topic_id"@ != "payload"@,
        "topic_id"@ != "name"@,
        "topic_id"@ != "generation"@,
        "qos"@ != "payload"@,
        "qos"@ != "name"@,
        "qos"@ != "generation"@,
        "payload"@ != "name"@,
        "payload"@ != "generation"@,
        "name"@ != "generation"@,
        "NULL"@ != ":topic"@,
        "NULL"@ != ":id"@,
        "NULL"@ != ":session_id"@,
        "NULL"@ != ":topic_id"@,
        "NULL"@ != ":qos"@,
        "NULL"@ != ":payload"@,
        "NULL"@ != ":retained_message_id"@,
        ":topic"@ != ":id"@,
        ":topic"@ != ":session_id"@,
        ":topic"@ != ":topic_id"@,
        ":topic"@ != ":qos"@,
        ":topic"@ != ":payload"@,
        ":topic"@ != ":retained_message_id"@,
        ":id"@ != ":session_id"@,
        ":id"@ != ":topic_id"@,
        ":id"@ != ":qos"@,
        ":id"@ != ":payload"@,
        ":id"@ != ":retained_message_id"@,
        ":session_id"@ != ":topic_id"@,
        ":session_id"@ != ":qos"@,
        ":session_id"@ != ":payload"@,
        ":session_id"@ != ":retained_message_id"@,
        ":topic_id"@ != ":qos"@,
        ":topic_id"@ != ":payload"@,
        ":topic_id"@ != ":retained_message_id"@,
        ":qos"@ != ":payload"@,
        ":qos"@ != ":retained_message_id"@,
        ":payload"@ != ":retained_message_id"@,
        "INSERT"@ != "UPDATE"@,
        "INSERT"@ != "DELETE"@,
        "INSERT"@ != "SELECT"@,
        "UPDATE"@ != "DELETE"@,
        "UPDATE"@ != "SELECT"@,
        "DELETE"@ != "SELECT"@,
        "topics"@ != "subscriptions"@,
        "topics"@ != "messages"@,
        "topics"@ != "sessions"@,
        "subscriptions"@ != "messages"@,
        "subscriptions"@ != "sessions"@,
        "messages"@ != "sessions"@,
        "VALUES"@ != "INSERT"@,
        "VALUES"@ != "INTO"@,
        "VALUES"@ != "topics"@,
        "VALUES"@ != "subscriptions"@,
        "VALUES"@ != "messages"@,
        "VALUES"@ != "sessions"@,
        "VALUES"@ != "id"@,
        "VALUES"@ != "topic"@,
        "VALUES"@ != "retained_message_id"@,
        "VALUES"@ != "session_id"@,
        "VALUES"@ != "topic_id"@,
        "VALUES"@ != "qos"@,
        "VALUES"@ != "payload"@,
        "VALUES"@ != "name"@,
        "VALUES"@ != "generation"@,
        "FROM"@ != "SELECT"@,
        "FROM"@ != "id"@,
        "FROM"@ != "topic"@,
        "FROM"@ != "retained_message_id"@,
        "FROM"@ != "session_id"@,
        "FROM"@ != "topic_id"@,
        "FROM"@ != "qos"@,
        "FROM"@ != "payload"@,
        "FROM"@ != "name"@,
        "FROM"@ != "generation"@,
        "FROM"@ != "sessions.id"@,
        "FROM"@ != "sessions.name"@,
        "FROM"@ != "sessions.generation"@,
        "FROM"@ != "subscriptions.qos"@,
{
    reveal_strlit("id");
    reveal_strlit("topic");
    reveal_strlit("retained_message_id");
    reveal_strlit("session_id");
    reveal_strlit("topic_id");
    reveal_strlit("qos");
    reveal_strlit("payload");
    reveal_strlit("name");
    reveal_strlit("generation");
    reveal_strlit("NULL");
    reveal_strlit(":topic");
    reveal_strlit(":id");
    reveal_strlit(":session_id");
    reveal_strlit(":topic_id");
    reveal_strlit(":qos");
    reveal_strlit(":payload");
    reveal_strlit(":retained_message_id");
    reveal_strlit("INSERT");
    reveal_strlit("UPDATE");
    reveal_strlit("DELETE");
    reveal_strlit("SELECT");
    reveal_strlit("topics");
    reveal_strlit("subscriptions");
    reveal_strlit("messages");
    reveal_strlit("sessions");
    reveal_strlit("VALUES");
    reveal_strlit("INTO");
    reveal_strlit("FROM");
    reveal_strlit("sessions.id");
    reveal_strlit("sessions.name");
    reveal_strlit("sessions.generation");
    reveal_strlit("subscriptions.qos");
    assert("id"@.len() != "topic"@.len());
    assert("id"@.len() != "retained_message_id"@.len());
    assert("id"@.len() != "session_id"@.len());
    assert("id"@.len() != "topic_id"@.len());
    assert("id"@.len() != "qos"@.len());
    assert("id"@.len() != "payload"@.len());
    assert("id"@.len() != "name"@.len());
    assert("id"@.len() != "generation"@.len());
    assert("topic"@.len() != "retained_message_id"@.len());
    assert("topic"@.len() != "session_id"@.len());
    assert("topic"@.len() != "topic_id"@.len());
    assert("topic"@.len() != "qos"@.len());
    assert("topic"@.len() != "payload"@.len());
    assert("topic"@.len() != "name"@.len());
    assert("topic"@.len() != "generation"@.len());
    assert("retained_message_id"@.len() != "session_id"@.len());
    assert("retained_message_id"@.len() != "topic_id"@.len());
    assert("retained_message_id"@.len() != "qos"@.len());
    assert("retained_message_id"@.len() != "payload"@.len());
    assert("retained_message_id"@.len() != "name"@.len());
    assert("retained_message_id"@.len() != "generation"@.len());
    assert("session_id"@.len() != "topic_id"@.len());
    assert("session_id"@.len() != "qos"@.len());
    assert("session_id"@.len() != "payload"@.len());
    assert("session_id"@.len() != "name"@.len());
    assert("session_id"@[0] != "generation"@[0]);
    assert("topic_id"@.len() != "qos"@.len());
    assert("topic_id"@.len() != "payload"@.len());
    assert("topic_id"@.len() != "name"@.len());
    assert("topic_id"@.len() != "generation"@.len());
    assert("qos"@.len() != "payload"@.len());
    assert("qos"@.len() != "name"@.len());
    assert("qos"@.len() != "generation"@.len());
    assert("payload"@.len() != "name"@.len());
    assert("payload"@.len() != "generation"@.len());
    assert("name"@.len() != "generation"@.len());
    assert("NULL"@.len() != ":topic"@.len());
    assert("NULL"@.len() != ":id"@.len());
    assert("NULL"@.len() != ":session_id"@.len());
    assert("NULL"@.len() != ":topic_id"@.len());
    assert("NULL"@[0] != ":qos"@[0]);
    assert("NULL"@.len() != ":payload"@.len());
    assert("NULL"@.len() != ":retained_message_id"@.len());
    assert(":topic"@.len() != ":id"@.len());
    assert(":topic"@.len() != ":session_id"@.len());
    assert(":topic"@.len() != ":topic_id"@.len());
    assert(":topic"@.len() != ":qos"@.len());
    assert(":topic"@.len() != ":payload"@.len());
    assert(":topic"@.len() != ":retained_message_id"@.len());
    assert(":id"@.len() != ":session_id"@.len());
    assert(":id"@.len() != ":topic_id"@.len());
    assert(":id"@.len() != ":qos"@.len());
    assert(":id"@.len() != ":payload"@.len());
    assert(":id"@.len() != ":retained_message_id"@.len());
    assert(":session_id"@.len() != ":topic_id"@.len());
    assert(":session_id"@.len() != ":qos"@.len());
    assert(":session_id"@.len() != ":payload"@.len());
    assert(":session_id"@.len() != ":retained_message_id"@.len());
    assert(":topic_id"@.len() != ":qos"@.len());
    assert(":topic_id"@.len() != ":payload"@.len());
    assert(":topic_id"@.len() != ":retained_message_id"@.len());
    assert(":qos"@.len() != ":payload"@.len());
    assert(":qos"@.len() != ":retained_message_id"@.len());
    assert(":payload"@.len() != ":retained_message_id"@.len());
    assert("INSERT"@[0] != "UPDATE"@[0]);
    assert("INSERT"@[0] != "DELETE"@[0]);
    assert("INSERT"@[0] != "SELECT"@[0]);
    assert("UPDATE"@[0] != "DELETE"@[0]);
    assert("UPDATE"@[0] != "SELECT"@[0]);
    assert("DELETE"@[0] != "SELECT"@[0]);
    assert("topics"@.len() != "subscriptions"@.len());
    assert("topics"@.len() != "messages"@.len());
    assert("topics"@.len() != "sessions"@.len());
    assert("subscriptions"@.len() != "messages"@.len());
    assert("subscriptions"@.len() != "sessions"@.len());
    assert("messages"@[0] != "sessions"@[0]);
    assert("VALUES"@[0] != "INSERT"@[0]);
    assert("VALUES"@.len() != "INTO"@.len());
    assert("VALUES"@[0] != "topics"@[0]);
    assert("VALUES"@.len() != "subscriptions"@.len());
    assert("VALUES"@.len() != "messages"@.len());
    assert("VALUES"@.len() != "sessions"@.len());
    assert("VALUES"@.len() != "id"@.len());
    assert("VALUES"@.len() != "topic"@.len());
    assert("VALUES"@.len() != "retained_message_id"@.len());
    assert("VALUES"@.len() != "session_id"@.len());
    assert("VALUES"@.len() != "topic_id"@.len());
    assert("VALUES"@.len() != "qos"@.len());
    assert("VALUES"@.len() != "payload"@.len());
    assert("VALUES"@.len() != "name"@.len());
    assert("VALUES"@.len() != "generation"@.len());
    assert("FROM"@.len() != "SELECT"@.len());
    assert("FROM"@.len() != "id"@.len());
    assert("FROM"@.len() != "topic"@.len());
    assert("FROM"@.len() != "retained_message_id"@.len());
    assert("FROM"@.len() != "session_id"@.len());
    assert("FROM"@.len() != "topic_id"@.len());
    assert("FROM"@.len() != "qos"@.len());
    assert("FROM"@.len() != "payload"@.len());
    assert("FROM"@[0] != "name"@[0]);
    assert("FROM"@.len() != "generation"@.len());
    assert("FROM"@.len() != "sessions.id"@.len());
    assert("FROM"@.len() != "sessions.name"@.len());
    assert("FROM"@.len() != "sessions.generation"@.len());
    assert("FROM"@.len() != "subscriptions.qos"@.len());
}

/// What stands in a column of a row.
#[verifier::ext_equal]
pub enum Cell {
    Null,
    Number(int),
    Text(Seq<char>),
    Bytes(Seq<u8>),
}

/// A row: what stands in its columns.
pub type Row = Map<Seq<char>, Cell>;

/// The tables of a store under their names, each with its rows.
pub type Tables = Map<Seq<char>, Seq<Row>>;

/// A value of a statement as it is stored.
pub open spec fn stored(value: SqlValueView) -> Cell {
    match value {
        SqlValueView::Int(n) => Cell::Number(n as int),
        SqlValueView::Small(n) => Cell::Number(n as int),
        SqlValueView::Text(s) => Cell::Text(s),
        SqlValueView::Blob(b) => Cell::Bytes(b),
    }
}

/// What a word stands for as a value: nothing, or the value of that name.
pub open spec fn value_of(word: Seq<char>, params: Seq<(Seq<char>, SqlValueView)>) -> Cell
    decreases params.len(),
{
    if word == "NULL"@ || params.len() == 0 {
        Cell::Null
    } else if params[0].0 == word {
        stored(params[0].1)
    } else {
        value_of(word, params.skip(1))
    }
}

/// Where a word stands first.
pub open spec fn place(list: Seq<Seq<char>>, word: Seq<char>) -> int
    decreases list.len(),
{
    if list.len() == 0 || list[0] == word {
        0
    } else {
        1 + place(list.skip(1), word)
    }
}

/// Whether a row meets a condition, which is one or more of `column = value` with AND
/// between them.
pub open spec fn meets(
    row: Row,
    condition: Seq<Seq<char>>,
    params: Seq<(Seq<char>, SqlValueView)>,
) -> bool
    decreases condition.len(),
{
    &&& condition.len() >= 3
    &&& condition[1] == "="@
    &&& row[condition[0]] == value_of(condition[2], params)
    &&& condition.len() == 3 || (condition[3] == "AND"@ && meets(row, condition.skip(4), params))
}

/// The rows without those that meet a condition.
pub open spec fn without_rows(
    rows: Seq<Row>,
    condition: Seq<Seq<char>>,
    params: Seq<(Seq<char>, SqlValueView)>,
) -> Seq<Row> {
    rows.filter(|row: Row| !meets(row, condition, params))
}

/// The rows, with a value in a column of those that meet a condition.
pub open spec fn changed_rows(
    rows: Seq<Row>,
    column: Seq<char>,
    cell: Cell,
    condition: Seq<Seq<char>>,
    params: Seq<(Seq<char>, SqlValueView)>,
) -> Seq<Row> {
    rows.map_values(
        |row: Row|
            if meets(row, condition, params) {
                row.insert(column, cell)
            } else {
                row
            },
    )
}

/// The row that an INSERT adds: each column that is named gets the value at the same place
/// behind VALUES, and a column that is returned the new key.
pub open spec fn new_row(
    list: Seq<Seq<char>>,
    params: Seq<(Seq<char>, SqlValueView)>,
    key: int,
) -> Row {
    let n = place(list, "VALUES"@) - 3;
    let columns = list.subrange(3, 3 + n);
    let row = Map::new(
        |column: Seq<char>| columns.contains(column),
        |column: Seq<char>| value_of(list[4 + n + place(columns, column)], params),
    );
    if list.len() == 6 + 2 * n && list[4 + 2 * n] == "RETURNING"@ {
        row.insert(list[5 + 2 * n], Cell::Number(key))
    } else {
        row
    }
}

/// The tables after a statement. `key` is the key that a new row gets where the store
/// gives it one.
pub open spec fn performed(tables: Tables, s: StatementView, key: int) -> Tables {
    let list = words(s.sql);
    if list[0] == "INSERT"@ && list[1] == "INTO"@ {
        tables.insert(list[2], tables[list[2]].push(new_row(list, s.params, key)))
    } else if list[0] == "UPDATE"@ && list[2] == "SET"@ && list[4] == "="@ && list[6]
        == "WHERE"@ {
        tables.insert(
            list[1],
            changed_rows(
                tables[list[1]],
                list[3],
                value_of(list[5], s.params),
                list.skip(7),
                s.params,
            ),
        )
    } else if list[0] == "DELETE"@ && list[1] == "FROM"@ && list[3] == "WHERE"@ {
        tables.insert(list[2], without_rows(tables[list[2]], list.skip(4), s.params))
    } else {
        tables
    }
}

/// Whether a query of one table lists some cells for a row.
pub open spec fn lists_row(s: StatementView, row: Row, cells: Seq<Cell>) -> bool {
    let list = words(s.sql);
    let n = place(list, "FROM"@);
    &&& cells == list.subrange(1, n).map_values(|column: Seq<char>| row[column])
    &&& list.len() > n + 2 ==> list[n + 2] == "WHERE"@ && meets(row, list.skip(n + 3), s.params)
}

/// Whether a query of one table lists some cells.
pub open spec fn lists(tables: Tables, s: StatementView, cells: Seq<Cell>) -> bool {
    let list = words(s.sql);
    let rows = tables[list[place(list, "FROM"@) + 1]];
    &&& list[0] == "SELECT"@
    &&& exists|i: int| 0 <= i < rows.len() && lists_row(s, #[trigger] rows[i], cells)
}

/// What stands in a column of two rows that are joined, where the column is named with the
/// table before it.
pub open spec fn joined(
    column: Seq<char>,
    left: Seq<char>,
    row: Row,
    right: Seq<char>,
    other: Row,
) -> Cell {
    match text::after_prefix(column, left + "."@) {
        Some(name) => row[name],
        None => match text::after_prefix(column, right + "."@) {
            Some(name) => other[name],
            None => Cell::Null,
        },
    }
}

/// Whether a query of two tables, joined on a column of each, lists some cells for a row of
/// each.
pub open spec fn lists_rows(s: StatementView, row: Row, other: Row, cells: Seq<Cell>) -> bool {
    let list = words(s.sql);
    let n = place(list, "FROM"@);
    let (left, right) = (list[n + 1], list[n + 4]);
    &&& joined(list[n + 6], left, row, right, other) == joined(
        list[n + 8],
        left,
        row,
        right,
        other,
    )
    &&& joined(list[n + 10], left, row, right, other) == value_of(list[n + 12], s.params)
    &&& cells == list.subrange(1, n).map_values(
        |column: Seq<char>| joined(column, left, row, right, other),
    )
}

/// Whether a query of two tables, joined on a column of each, lists some cells.
pub open spec fn lists_joined(tables: Tables, s: StatementView, cells: Seq<Cell>) -> bool {
    let list = words(s.sql);
    let n = place(list, "FROM"@);
    let (left, right) = (tables[list[n + 1]], tables[list[n + 4]]);
    &&& list[0] == "SELECT"@
    &&& list[n + 2] == "INNER"@
    &&& list[n + 3] == "JOIN"@
    &&& list[n + 5] == "ON"@
    &&& list[n + 7] == "="@
    &&& list[n + 9] == "WHERE"@
    &&& list[n + 11] == "="@
    &&& list.len() == n + 13
    &&& exists|i: int, j: int|
        0 <= i < left.len() && 0 <= j < right.len() && lists_rows(
            s,
            #[trigger] left[i],
            #[trigger] right[j],
            cells,
        )
}

/// The row of a subscription.
pub open spec fn subscription_row(session_id: i32, topic_id: i32, qos: u8) -> Row {
    map![
        "session_id"@ => Cell::Number(session_id as int),
        "topic_id"@ => Cell::Number(topic_id as int),
        "qos"@ => Cell::Number(qos as int),
    ]
}

/// A new subscription adds one row to the table of subscriptions, with the key of its
/// session, the key of its topic and its quality of service; nothing else changes.
pub proof fn law_subscription_is_stored(
    tables: Tables,
    session_id: i32,
    topic_id: i32,
    qos: u8,
    key: int,
)
    ensures
        performed(
            tables,
            persistsql::statement_for(RequestView::PersistSubscribe { session_id, topic_id, qos }),
            key,
        ) == tables.insert(
            "subscriptions"@,
            tables["subscriptions"@].push(subscription_row(session_id, topic_id, qos)),
        ),
{
    lemma_words_insert_subscription();
    let s = persistsql::statement_for(
        RequestView::PersistSubscribe { session_id, topic_id, qos },
    );
    let list = words(s.sql);
    lemma_words_differ();
    let columns = list.subrange(3, 6);
    reveal_with_fuel(place, 8);
    assert(place(list, "VALUES"@) == 6);
    assert(columns[0] == "session_id"@ && columns[1] == "topic_id"@ && columns[2] == "qos"@);
    assert(place(columns, "session_id"@) == 0);
    assert(place(columns, "topic_id"@) == 1);
    assert(place(columns, "qos"@) == 2);
    reveal_with_fuel(value_of, 4);
    assert(new_row(list, s.params, key) =~= subscription_row(session_id, topic_id, qos));
}

/// Whether a row is that of a subscription of a session to a topic.
pub open spec fn is_subscription(row: Row, session_id: i32, topic_id: i32) -> bool {
    row["session_id"@] == Cell::Number(session_id as int) && row["topic_id"@] == Cell::Number(
        topic_id as int,
    )
}

/// Another quality of service is written into the rows of that session and topic, and into
/// no other.
pub proof fn law_subscription_is_changed(
    tables: Tables,
    session_id: i32,
    topic_id: i32,
    qos: u8,
    key: int,
)
    ensures
        performed(
            tables,
            persistsql::statement_for(
                RequestView::PersistUpdateSubscribe { session_id, topic_id, qos },
            ),
            key,
        ) == tables.insert(
            "subscriptions"@,
            tables["subscriptions"@].map_values(
                |row: Row|
                    if is_subscription(row, session_id, topic_id) {
                        row.insert("qos"@, Cell::Number(qos as int))
                    } else {
                        row
                    },
            ),
        ),
{
    lemma_words_update_subscription();
    lemma_words_differ();
    let s = persistsql::statement_for(
        RequestView::PersistUpdateSubscribe { session_id, topic_id, qos },
    );
    let list = words(s.sql);
    let condition = list.skip(7);
    reveal_with_fuel(value_of, 4);
    reveal_with_fuel(meets, 2);
    assert(condition.skip(4)[0] == "topic_id"@);
    assert(condition.skip(4)[1] == "="@);
    assert(condition.skip(4)[2] == ":topic_id"@);
    assert forall|row: Row| #[trigger] meets(row, condition, s.params) == is_subscription(
        row,
        session_id,
        topic_id,
    ) by {}
    assert(performed(tables, s, key)["subscriptions"@] =~= tables["subscriptions"@].map_values(
        |row: Row|
            if is_subscription(row, session_id, topic_id) {
                row.insert("qos"@, Cell::Number(qos as int))
            } else {
                row
            },
    ));
}

/// The end of a subscription takes away the rows of that session and topic, and no other.
pub proof fn law_subscription_is_ended(
    tables: Tables,
    session_id: i32,
    topic_id: i32,
    key: int,
)
    ensures
        performed(
            tables,
            persistsql::statement_for(RequestView::PersistUnsubscribe { session_id, topic_id }),
            key,
        ) == tables.insert(
            "subscriptions"@,
            tables["subscriptions"@].filter(
                |row: Row| !is_subscription(row, session_id, topic_id),
            ),
        ),
{
    lemma_words_delete_subscription();
    lemma_words_differ();
    let s = persistsql::statement_for(RequestView::PersistUnsubscribe { session_id, topic_id });
    let list = words(s.sql);
    let condition = list.skip(4);
    reveal_with_fuel(value_of, 3);
    reveal_with_fuel(meets, 2);
    assert(condition.skip(4)[0] == "topic_id"@);
    assert(condition.skip(4)[1] == "="@);
    assert(condition.skip(4)[2] == ":topic_id"@);
    assert((|row: Row| !meets(row, condition, s.params)) =~= (|row: Row|
        !is_subscription(row, session_id, topic_id)));
}

/// The query for the subscriptions to a topic.
pub open spec fn subscriptions_query(topic_id: i32) -> StatementView {
    StatementView {
        sql: persistsql::SUBSCRIPTIONS_QUERY@,
        params: seq![(":topic_id"@, SqlValueView::Int(topic_id))],
    }
}

/// Whether row `i` of the subscriptions is one to a topic, of the session in row `j` of the
/// sessions.
pub open spec fn subscribed(tables: Tables, topic_id: i32, i: int, j: int) -> bool {
    &&& 0 <= i < tables["subscriptions"@].len()
    &&& 0 <= j < tables["sessions"@].len()
    &&& tables["subscriptions"@][i]["topic_id"@] == Cell::Number(topic_id as int)
    &&& tables["subscriptions"@][i]["session_id"@] == tables["sessions"@][j]["id"@]
}

proof fn lemma_qualified()
    ensures
        forall|r: Row, t: Row| #[trigger]
            joined("sessions.id"@, "subscriptions"@, r, "sessions"@, t) == t["id"@],
        forall|r: Row, t: Row| #[trigger]
            joined("sessions.name"@, "subscriptions"@, r, "sessions"@, t) == t["name"@],
        forall|r: Row, t: Row| #[trigger]
            joined("sessions.generation"@, "subscriptions"@, r, "sessions"@, t)
                == t["generation"@],
        forall|r: Row, t: Row| #[trigger]
            joined("subscriptions.qos"@, "subscriptions"@, r, "sessions"@, t) == r["qos"@],
        forall|r: Row, t: Row| #[trigger]
            joined("subscriptions.session_id"@, "subscriptions"@, r, "sessions"@, t)
                == r["session_id"@],
        forall|r: Row, t: Row| #[trigger]
            joined("subscriptions.topic_id"@, "subscriptions"@, r, "sessions"@, t)
                == r["topic_id"@],
{
    reveal_strlit("sessions");
    reveal_strlit("subscriptions");
    reveal_strlit(".");
    reveal_strlit("id");
    reveal_strlit("name");
    reveal_strlit("generation");
    reveal_strlit("qos");
    reveal_strlit("session_id");
    reveal_strlit("topic_id");
    reveal_strlit("sessions.id");
    reveal_strlit("sessions.name");
    reveal_strlit("sessions.generation");
    reveal_strlit("subscriptions.qos");
    reveal_strlit("subscriptions.session_id");
    reveal_strlit("subscriptions.topic_id");
    lemma_not_left("sessions.id"@);
    lemma_not_left("sessions.name"@);
    lemma_not_left("sessions.generation"@);
    lemma_behind("sessions.id"@, "sessions"@ + "."@, "id"@);
    lemma_behind("sessions.name"@, "sessions"@ + "."@, "name"@);
    lemma_behind("sessions.generation"@, "sessions"@ + "."@, "generation"@);
    lemma_behind("subscriptions.qos"@, "subscriptions"@ + "."@, "qos"@);
    lemma_behind("subscriptions.session_id"@, "subscriptions"@ + "."@, "session_id"@);
    lemma_behind("subscriptions.topic_id"@, "subscriptions"@ + "."@, "topic_id"@);
}

/// What follows a prefix.
proof fn lemma_behind(word: Seq<char>, prefix: Seq<char>, rest: Seq<char>)
    requires
        word.len() == prefix.len() + rest.len(),
        forall|i: int| 0 <= i < prefix.len() ==> word[i] == #[trigger] prefix[i],
        forall|i: int| 0 <= i < rest.len() ==> word[prefix.len() + i] == #[trigger] rest[i],
    ensures
        text::after_prefix(word, prefix) == Some(rest),
{
    assert(word.subrange(0, prefix.len() as int) =~= prefix);
    assert(word.skip(prefix.len() as int) =~= rest);
}

/// A column of the sessions is none of the subscriptions.
proof fn lemma_not_left(word: Seq<char>)
    requires
        word.len() > 1,
        word[1] == 'e',
    ensures
        text::after_prefix(word, "subscriptions"@ + "."@) is None,
{
    reveal_strlit("subscriptions");
    let prefix = "subscriptions"@ + "."@;
    assert(prefix[1] == 'u');
    if prefix.is_prefix_of(word) {
        assert(word.subrange(0, prefix.len() as int)[1] == prefix[1]);
    }
}

/// The query for the subscriptions to a topic lists, for each row with the key of that
/// topic, the key, the name and the generation of the session with the key in that row,
/// and the quality of service in it; and nothing else.
pub proof fn law_subscriptions_are_listed(tables: Tables, topic_id: i32, cells: Seq<Cell>)
    ensures
        lists_joined(tables, subscriptions_query(topic_id), cells) <==> exists|i: int, j: int|
            #![trigger subscribed(tables, topic_id, i, j)]
            subscribed(tables, topic_id, i, j) && cells == seq![
                tables["sessions"@][j]["id"@],
                tables["sessions"@][j]["name"@],
                tables["sessions"@][j]["generation"@],
                tables["subscriptions"@][i]["qos"@],
            ],
{
    lemma_words_select_subscriptions();
    lemma_words_differ();
    lemma_qualified();
    let s = subscriptions_query(topic_id);
    let list = words(s.sql);
    let left = "subscriptions"@;
    let right = "sessions"@;
    reveal_with_fuel(place, 6);
    reveal_with_fuel(value_of, 2);
    assert(place(list, "FROM"@) == 5);
    assert(list.len() == 18 && list[0] == "SELECT"@ && list[6] == left && list[9] == right);
    assert(list[7] == "INNER"@ && list[8] == "JOIN"@ && list[10] == "ON"@);
    assert(list[12] == "="@ && list[14] == "WHERE"@ && list[16] == "="@);
    let columns = list.subrange(1, 5);
    let subscriptions = tables[left];
    let sessions = tables[right];
    assert forall|row: Row, other: Row| #[trigger]
        lists_rows(s, row, other, cells) == (other["id"@] == row["session_id"@] && row["topic_id"@]
            == Cell::Number(topic_id as int) && cells == seq![
            other["id"@],
            other["name"@],
            other["generation"@],
            row["qos"@],
        ]) by {
        assert(columns.map_values(|column: Seq<char>| joined(column, left, row, right, other))
            =~= seq![other["id"@], other["name"@], other["generation"@], row["qos"@]]);
    }
    if lists_joined(tables, s, cells) {
        let (i, j) = choose|i: int, j: int|
            0 <= i < subscriptions.len() && 0 <= j < sessions.len() && lists_rows(
                s,
                #[trigger] subscriptions[i],
                #[trigger] sessions[j],
                cells,
            );
        assert(lists_rows(s, subscriptions[i], sessions[j], cells));
        assert(subscribed(tables, topic_id, i, j));
    }
    assert forall|i: int, j: int|
        #![trigger subscribed(tables, topic_id, i, j)]
        subscribed(tables, topic_id, i, j) && cells == seq![
            sessions[j]["id"@],
            sessions[j]["name"@],
            sessions[j]["generation"@],
            subscriptions[i]["qos"@],
        ] implies lists_joined(tables, s, cells) by {
        assert(lists_rows(s, subscriptions[i], sessions[j], cells));
        let n = place(list, "FROM"@);
        let (a, b) = (tables[list[n + 1]], tables[list[n + 4]]);
        assert(a == subscriptions && b == sessions);
        assert(lists_rows(s, a[i], b[j], cells));
    }
}

/// A new subscription is found again: of a session that is in the store, the query for its
/// topic then lists the key, the name and the generation, with the quality of service
/// that was asked for. Once it is ended, the query lists that session no more.
pub proof fn law_subscription_is_found(
    tables: Tables,
    session_id: i32,
    topic_id: i32,
    qos: u8,
    j: int,
    key: int,
    cells: Seq<Cell>,
)
    requires
        0 <= j < tables["sessions"@].len(),
        tables["sessions"@][j]["id"@] == Cell::Number(session_id as int),
    ensures
        ({
            let subscribe = persistsql::statement_for(
                RequestView::PersistSubscribe { session_id, topic_id, qos },
            );
            let unsubscribe = persistsql::statement_for(
                RequestView::PersistUnsubscribe { session_id, topic_id },
            );
            let after = performed(tables, subscribe, key);
            let ended = performed(after, unsubscribe, key);
            let session = tables["sessions"@][j];
            &&& lists_joined(
                after,
                subscriptions_query(topic_id),
                seq![
                    Cell::Number(session_id as int),
                    session["name"@],
                    session["generation"@],
                    Cell::Number(qos as int),
                ],
            )
            &&& lists_joined(ended, subscriptions_query(topic_id), cells) ==> cells[0]
                != Cell::Number(session_id as int)
        }),
{
    let subscribe = persistsql::statement_for(
        RequestView::PersistSubscribe { session_id, topic_id, qos },
    );
    let unsubscribe = persistsql::statement_for(
        RequestView::PersistUnsubscribe { session_id, topic_id },
    );
    let after = performed(tables, subscribe, key);
    let ended = performed(after, unsubscribe, key);
    let rows = tables["subscriptions"@];
    let found = seq![
        Cell::Number(session_id as int),
        tables["sessions"@][j]["name"@],
        tables["sessions"@][j]["generation"@],
        Cell::Number(qos as int),
    ];
    lemma_words_differ();
    law_subscription_is_stored(tables, session_id, topic_id, qos, key);
    law_subscription_is_ended(after, session_id, topic_id, key);
    law_subscriptions_are_listed(after, topic_id, found);
    law_subscriptions_are_listed(ended, topic_id, cells);
    assert(after["sessions"@] == tables["sessions"@]);
    let row = subscription_row(session_id, topic_id, qos);
    assert(row["session_id"@] == Cell::Number(session_id as int));
    assert(row["topic_id"@] == Cell::Number(topic_id as int));
    assert(row["qos"@] == Cell::Number(qos as int));
    assert(after["subscriptions"@][rows.len() as int] == row);
    assert(subscribed(after, topic_id, rows.len() as int, j));
    if lists_joined(ended, subscriptions_query(topic_id), cells) && cells[0] == Cell::Number(
        session_id as int,
    ) {
        let (a, b) = choose|a: int, b: int|
            #![trigger subscribed(ended, topic_id, a, b)]
            subscribed(ended, topic_id, a, b) && cells == seq![
                ended["sessions"@][b]["id"@],
                ended["sessions"@][b]["name"@],
                ended["sessions"@][b]["generation"@],
                ended["subscriptions"@][a]["qos"@],
            ];
        let keep = |row: Row| !is_subscription(row, session_id, topic_id);
        after["subscriptions"@].lemma_filter_pred(keep, a);
        assert(ended["subscriptions"@][a]["session_id"@] == cells[0]);
        assert(false);
    }
}

/// The row of a topic with nothing retained.
pub open spec fn topic_row(topic: Seq<char>, key: int) -> Row {
    map!["topic"@ => Cell::Text(topic), "id"@ => Cell::Number(key)]
}

/// A new topic adds one row with its name to the table of topics, under the key that the
/// store gives it.
pub proof fn law_topic_is_stored(tables: Tables, topic: Seq<char>, key: int)
    ensures
        performed(tables, persistsql::statement_for(RequestView::PersistTopic { topic }), key)
            == tables.insert("topics"@, tables["topics"@].push(topic_row(topic, key))),
{
    lemma_words_insert_topic();
    lemma_words_differ();
    let s = persistsql::statement_for(RequestView::PersistTopic { topic });
    let list = words(s.sql);
    let columns = list.subrange(3, 4);
    reveal_with_fuel(place, 6);
    reveal_with_fuel(value_of, 2);
    assert(place(list, "VALUES"@) == 4);
    assert(columns[0] == "topic"@);
    assert(new_row(list, s.params, key) =~= topic_row(topic, key));
}

/// Whether a row has a key.
pub open spec fn has_key(row: Row, key: i32) -> bool {
    row["id"@] == Cell::Number(key as int)
}

/// The end of a topic takes away the row with its key from the topics, and no other.
pub proof fn law_topic_is_ended(tables: Tables, topic_id: i32, key: int)
    ensures
        performed(
            tables,
            persistsql::statement_for(RequestView::PersistDeleteTopic { topic_id }),
            key,
        ) == tables.insert(
            "topics"@,
            tables["topics"@].filter(|row: Row| !has_key(row, topic_id)),
        ),
{
    lemma_words_delete_topic();
    lemma_words_differ();
    let s = persistsql::statement_for(RequestView::PersistDeleteTopic { topic_id });
    let condition = words(s.sql).skip(4);
    reveal_with_fuel(value_of, 2);
    assert((|row: Row| !meets(row, condition, s.params)) =~= (|row: Row|
        !has_key(row, topic_id)));
}

/// The query for the topics lists the key, the name and the key of the retained message of
/// every topic, in this order, and nothing else.
pub proof fn law_topics_are_listed(tables: Tables, cells: Seq<Cell>)
    ensures
        ({
            let s = StatementView { sql: persistsql::TOPICS_QUERY@, params: seq![] };
            let rows = tables["topics"@];
            lists(tables, s, cells) <==> exists|i: int|
                0 <= i < rows.len() && cells == seq![
                    (#[trigger] rows[i])["id"@],
                    rows[i]["topic"@],
                    rows[i]["retained_message_id"@],
                ]
        }),
{
    lemma_words_select_topics();
    lemma_words_differ();
    let none: Seq<(Seq<char>, SqlValueView)> = seq![];
    let s = StatementView { sql: persistsql::TOPICS_QUERY@, params: none };
    let list = words(s.sql);
    let rows = tables["topics"@];
    reveal_with_fuel(place, 6);
    assert(place(list, "FROM"@) == 4);
    let columns = list.subrange(1, 4);
    assert forall|row: Row| #[trigger]
        lists_row(s, row, cells) == (cells == seq![
            row["id"@],
            row["topic"@],
            row["retained_message_id"@],
        ]) by {
        assert(columns.map_values(|column: Seq<char>| row[column]) =~= seq![
            row["id"@],
            row["topic"@],
            row["retained_message_id"@],
        ]);
    }
    assert(tables[list[place(list, "FROM"@) + 1]] == rows);
    assert(lists(tables, s, cells) ==> exists|i: int|
        0 <= i < rows.len() && lists_row(s, #[trigger] rows[i], cells));
    assert forall|i: int|
        0 <= i < rows.len() && cells == seq![
            (#[trigger] rows[i])["id"@],
            rows[i]["topic"@],
            rows[i]["retained_message_id"@],
        ] implies lists(tables, s, cells) by {
        assert(lists_row(s, rows[i], cells));
    }
}

/// The row of a message.
pub open spec fn message_row(m: publish::PublishView, key: int) -> Row {
    map![
        "qos"@ => Cell::Number(m.qos as int),
        "topic"@ => Cell::Text(m.topic),
        "payload"@ => Cell::Bytes(m.message),
        "id"@ => Cell::Number(key),
    ]
}

/// A message to be retained adds one row to the table of messages, with its quality of
/// service, its topic and its bytes, under the key that the store gives it.
pub proof fn law_message_is_stored(
    tables: Tables,
    topic_id: i32,
    m: publish::PublishView,
    key: int,
)
    ensures
        performed(
            tables,
            persistsql::statement_for(RequestView::PersistRetain { topic_id, message: m }),
            key,
        ) == tables.insert("messages"@, tables["messages"@].push(message_row(m, key))),
{
    lemma_words_insert_message();
    lemma_words_differ();
    let s = persistsql::statement_for(RequestView::PersistRetain { topic_id, message: m });
    let list = words(s.sql);
    let columns = list.subrange(3, 6);
    reveal_with_fuel(place, 8);
    reveal_with_fuel(value_of, 4);
    assert(place(list, "VALUES"@) == 6);
    assert(columns[0] == "qos"@ && columns[1] == "topic"@ && columns[2] == "payload"@);
    assert(place(columns, "qos"@) == 0);
    assert(place(columns, "topic"@) == 1);
    assert(place(columns, "payload"@) == 2);
    assert(new_row(list, s.params, key) =~= message_row(m, key));
}

/// The query for a message lists the key, the quality of service, the topic and the bytes
/// of the message with that key, in this order, and nothing else.
pub proof fn law_message_is_listed(tables: Tables, message_id: i32, cells: Seq<Cell>)
    ensures
        ({
            let s = StatementView {
                sql: persistsql::MESSAGE_QUERY@,
                params: seq![(":id"@, SqlValueView::Int(message_id))],
            };
            let rows = tables["messages"@];
            lists(tables, s, cells) <==> exists|i: int|
                0 <= i < rows.len() && has_key(#[trigger] rows[i], message_id) && cells == seq![
                    rows[i]["id"@],
                    rows[i]["qos"@],
                    rows[i]["topic"@],
                    rows[i]["payload"@],
                ]
        }),
{
    lemma_words_select_message();
    lemma_words_differ();
    let s = StatementView {
        sql: persistsql::MESSAGE_QUERY@,
        params: seq![(":id"@, SqlValueView::Int(message_id))],
    };
    let list = words(s.sql);
    let rows = tables["messages"@];
    reveal_with_fuel(place, 7);
    reveal_with_fuel(value_of, 2);
    assert(place(list, "FROM"@) == 5);
    let columns = list.subrange(1, 5);
    assert forall|row: Row| #[trigger]
        lists_row(s, row, cells) == (has_key(row, message_id) && cells == seq![
            row["id"@],
            row["qos"@],
            row["topic"@],
            row["payload"@],
        ]) by {
        assert(columns.map_values(|column: Seq<char>| row[column]) =~= seq![
            row["id"@],
            row["qos"@],
            row["topic"@],
            row["payload"@],
        ]);
    }
    assert(tables[list[place(list, "FROM"@) + 1]] == rows);
    assert(lists(tables, s, cells) ==> exists|i: int|
        0 <= i < rows.len() && lists_row(s, #[trigger] rows[i], cells));
    assert forall|i: int|
        0 <= i < rows.len() && has_key(#[trigger] rows[i], message_id) && cells == seq![
            rows[i]["id"@],
            rows[i]["qos"@],
            rows[i]["topic"@],
            rows[i]["payload"@],
        ] implies lists(tables, s, cells) by {
        assert(lists_row(s, rows[i], cells));
    }
}

/// The topics with a value as the retained message of the one with a key.
pub open spec fn retaining(rows: Seq<Row>, topic_id: i32, cell: Cell) -> Seq<Row> {
    rows.map_values(
        |row: Row|
            if has_key(row, topic_id) {
                row.insert("retained_message_id"@, cell)
            } else {
                row
            },
    )
}

/// A stored message is tied to the topic with that key, and to no other.
pub proof fn law_message_is_tied(tables: Tables, topic_id: i32, message_id: i32, key: int)
    ensures
        performed(tables, persistsql::tie_sql(topic_id, message_id), key) == tables.insert(
            "topics"@,
            retaining(tables["topics"@], topic_id, Cell::Number(message_id as int)),
        ),
{
    lemma_words_tie_message();
    lemma_words_differ();
    let s = persistsql::tie_sql(topic_id, message_id);
    let condition = words(s.sql).skip(7);
    reveal_with_fuel(value_of, 3);
    assert forall|row: Row| #[trigger] meets(row, condition, s.params) == has_key(
        row,
        topic_id,
    ) by {}
    assert(performed(tables, s, key)["topics"@] =~= retaining(
        tables["topics"@],
        topic_id,
        Cell::Number(message_id as int),
    ));
}

/// Ending a retained message reads which one the topic with that key has, unties it from
/// that topic alone, and takes away the message with that key alone.
pub proof fn law_retained_message_is_ended(
    tables: Tables,
    topic_id: i32,
    message_id: i32,
    retained: Option<i32>,
    key: int,
    cells: Seq<Cell>,
)
    ensures
        ({
            let rows = tables["topics"@];
            &&& persistsql::delete_retain_sql(persistsql::DeleteRetain::Select, topic_id)
                matches Some(s) && (lists(tables, s, cells) <==> exists|i: int|
                0 <= i < rows.len() && has_key(#[trigger] rows[i], topic_id) && cells == seq![
                    rows[i]["retained_message_id"@],
                ])
        }),
        persistsql::delete_retain_sql(persistsql::DeleteRetain::Untie { retained }, topic_id)
            matches Some(s) && performed(tables, s, key) == tables.insert(
            "topics"@,
            retaining(tables["topics"@], topic_id, Cell::Null),
        ),
        persistsql::delete_retain_sql(persistsql::DeleteRetain::Delete { message_id }, topic_id)
            matches Some(s) && performed(tables, s, key) == tables.insert(
            "messages"@,
            tables["messages"@].filter(|row: Row| !has_key(row, message_id)),
        ),
{
    lemma_retained_is_listed(tables, topic_id, cells);
    lemma_words_untie_message();
    lemma_words_delete_message();
    lemma_words_differ();
    let s = persistsql::delete_retain_sql(
        persistsql::DeleteRetain::Untie { retained },
        topic_id,
    )->0;
    let condition = words(s.sql).skip(7);
    reveal_with_fuel(value_of, 2);
    assert forall|row: Row| #[trigger] meets(row, condition, s.params) == has_key(
        row,
        topic_id,
    ) by {}
    assert(performed(tables, s, key)["topics"@] =~= retaining(
        tables["topics"@],
        topic_id,
        Cell::Null,
    ));
    let d = persistsql::delete_retain_sql(
        persistsql::DeleteRetain::Delete { message_id },
        topic_id,
    )->0;
    let which = words(d.sql).skip(4);
    assert((|row: Row| !meets(row, which, d.params)) =~= (|row: Row|
        !has_key(row, message_id)));
}

proof fn lemma_retained_is_listed(tables: Tables, topic_id: i32, cells: Seq<Cell>)
    ensures
        ({
            let s = persistsql::statement_for(RequestView::PersistDeleteRetain { topic_id });
            let rows = tables["topics"@];
            lists(tables, s, cells) <==> exists|i: int|
                0 <= i < rows.len() && has_key(#[trigger] rows[i], topic_id) && cells == seq![
                    rows[i]["retained_message_id"@],
                ]
        }),
{
    lemma_words_select_retained();
    lemma_words_differ();
    let s = persistsql::statement_for(RequestView::PersistDeleteRetain { topic_id });
    let list = words(s.sql);
    let rows = tables["topics"@];
    reveal_with_fuel(place, 4);
    reveal_with_fuel(value_of, 2);
    assert(place(list, "FROM"@) == 2);
    let columns = list.subrange(1, 2);
    assert forall|row: Row| #[trigger]
        lists_row(s, row, cells) == (has_key(row, topic_id) && cells == seq![
            row["retained_message_id"@],
        ]) by {
        assert(columns.map_values(|column: Seq<char>| row[column]) =~= seq![
            row["retained_message_id"@],
        ]);
    }
    assert(tables[list[place(list, "FROM"@) + 1]] == rows);
    assert(lists(tables, s, cells) ==> exists|i: int|
        0 <= i < rows.len() && lists_row(s, #[trigger] rows[i], cells));
    assert forall|i: int|
        0 <= i < rows.len() && has_key(#[trigger] rows[i], topic_id) && cells == seq![
            rows[i]["retained_message_id"@],
        ] implies lists(tables, s, cells) by {
        assert(lists_row(s, rows[i], cells));
    }
}

/// A message that was stored is read back: under its key the query lists cells that are read
/// as a message with the same topic, bytes and quality of service.
pub proof fn law_message_is_read_back(
    tables: Tables,
    topic_id: i32,
    m: publish::PublishView,
    message_id: i32,
)
    ensures
        ({
            let after = performed(
                tables,
                persistsql::statement_for(RequestView::PersistRetain { topic_id, message: m }),
                message_id as int,
            );
            let query = StatementView {
                sql: persistsql::MESSAGE_QUERY@,
                params: seq![(":id"@, SqlValueView::Int(message_id))],
            };
            let qos = m.qos as i16;
            let read = persistsql::message_in_row(qos, m.topic, m.message);
            &&& lists(
                after,
                query,
                seq![
                    Cell::Number(message_id as int),
                    Cell::Number(qos as int),
                    Cell::Text(m.topic),
                    Cell::Bytes(m.message),
                ],
            )
            &&& read.topic == m.topic
            &&& read.message == m.message
            &&& read.qos == m.qos
            &&& !read.dup
            &&& !read.retain
        }),
{
    let after = performed(
        tables,
        persistsql::statement_for(RequestView::PersistRetain { topic_id, message: m }),
        message_id as int,
    );
    let cells = seq![
        Cell::Number(message_id as int),
        Cell::Number(m.qos as int),
        Cell::Text(m.topic),
        Cell::Bytes(m.message),
    ];
    lemma_words_differ();
    law_message_is_stored(tables, topic_id, m, message_id as int);
    law_message_is_listed(after, message_id, cells);
    persistsql::law_qos_in_a_row(m.qos);
    let rows = after["messages"@];
    let row = message_row(m, message_id as int);
    assert(rows[tables["messages"@].len() as int] == row);
    assert(row["id"@] == Cell::Number(message_id as int));
    assert(row["qos"@] == Cell::Number(m.qos as int));
    assert(row["topic"@] == Cell::Text(m.topic));
    assert(row["payload"@] == Cell::Bytes(m.message));
    assert(has_key(rows[tables["messages"@].len() as int], message_id));
}

/// The cells of a listed subscription are read as the session with its key, its name and
/// its generation, and with the quality of service that was stored.
pub proof fn law_subscription_is_read(id: i32, name: Seq<char>, generation: i64, qos: u8)
    ensures
        ({
            let (session, read) = persistsql::subscription_in_row(
                id,
                name,
                generation,
                qos as i16,
            );
            &&& session.internal_id == id
            &&& session.session == name
            &&& session.session_generation == generation
            &&& read == qos
        }),
{
    persistsql::law_qos_in_a_row(qos);
}

/// The cells of a listed topic are read as its key, its name and its retained message.
pub proof fn law_topic_is_read(id: i32, name: Seq<char>, retained: Option<i32>)
    ensures
        ({
            let t = persistsql::topic_in_row(id, name, retained);
            t.topic_id == id && t.topic_name == name && t.retained_message_id == retained
        }),
{
}

} // verus!
