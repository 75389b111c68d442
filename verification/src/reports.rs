//! The reports on a chat's pending expenses: the summary, today's list and
//! the history of the latest expenses.
use vstd::prelude::*;
use vstd::string::*;
use crate::clock::{self, push_date, push_time};
use crate::ledger::{self, due};
use crate::money::{self, push_baht};
use crate::text::{self, join, push_padded, signed_string};

verus! {

/// A pending expense of a chat.
pub struct Expense {
    /// The expense's id, which `/cancel` takes.
    pub id: i64,
    /// What was bought.
    pub item: String,
    /// The amount in satang.
    pub amount: i64,
    /// Who recorded it.
    pub paid_by: String,
    /// When it was recorded, in microseconds since the Unix epoch (the
    /// database keeps times to the microsecond).
    pub created_at: i64,
}

/// The sum of the amounts of the expenses.
pub open spec fn total(s: Seq<Expense>) -> int
    decreases s.len(),
{
    if s.len() == 0 {
        0
    } else {
        total(s.drop_last()) + s.last().amount
    }
}

/// The sum of the amounts of the expenses.
pub fn total_of(expenses: &Vec<Expense>) -> (t: i128)
    ensures
        t == total(expenses@),
        -(expenses@.len() as int) * 0x8000_0000_0000_0000 <= t <= (expenses@.len() as int)
            * 0x7fff_ffff_ffff_ffff,
{
    let n = expenses.len();
    let mut t: i128 = 0;
    let mut i: usize = 0;
    while i < n
        invariant
            n == expenses@.len(),
            i <= n,
            t == total(expenses@.take(i as int)),
            -(i as int) * 0x8000_0000_0000_0000 <= t <= (i as int) * 0x7fff_ffff_ffff_ffff,
        decreases n - i,
    {
        proof {
            assert(expenses@.take(i + 1).drop_last() =~= expenses@.take(i as int));
            assert((i as int) * 0x7fff_ffff_ffff_ffff + 0x7fff_ffff_ffff_ffff == (i + 1)
                * 0x7fff_ffff_ffff_ffff) by (nonlinear_arith);
            assert((i as int) * 0x8000_0000_0000_0000 + 0x8000_0000_0000_0000 == (i + 1)
                * 0x8000_0000_0000_0000) by (nonlinear_arith);
            assert((i + 1) * 0x7fff_ffff_ffff_ffff <= 0xffff_ffff_ffff_ffff
                * 0x7fff_ffff_ffff_ffff) by (nonlinear_arith)
                requires
                    i + 1 <= 0xffff_ffff_ffff_ffff,
            ;
            assert((i + 1) * 0x8000_0000_0000_0000 <= 0xffff_ffff_ffff_ffff
                * 0x8000_0000_0000_0000) by (nonlinear_arith)
                requires
                    i + 1 <= 0xffff_ffff_ffff_ffff,
            ;
        }
        t = t + expenses[i].amount as i128;
        i = i + 1;
    }
    assert(expenses@.take(n as int) =~= expenses@);
    t
}

pub const PENDING_HEADER: &'static str = "*รายการค้างชำระ:*\n";

pub const NO_PENDING_WITH_CREDIT: &'static str = "ไม่มียอดค้างชำระ\n💰 credit คงเหลือ *";

pub const DEDUCTED_LATER: &'static str = " บาท* — จะหักอัตโนมัติเมื่อมีรายการใหม่";

pub const ALL_CLEARED: &'static str = "ไม่มียอดค้างชำระ เคลียร์หมดแล้ว";

pub const BACKTICK: &'static str = "`";

pub const ID_END: &'static str = ".` ";

pub const DASH_STAR: &'static str = " — *";

pub const BAHT_SIGN_UNDERSCORE: &'static str = "฿* _";

pub const UNDERSCORE: &'static str = "_";

pub const GRAND_TOTAL: &'static str = "\n*รวมทั้งหมด: ";

pub const BAHT_CLOSE: &'static str = " บาท*";

pub const CREDIT_LEFT: &'static str = "credit คงเหลือ: *";

pub const TO_TRANSFER: &'static str = "ยอดที่ต้องโอน: *";

pub const SUMMARY_FOOTER: &'static str = "\nโอนแล้วส่งสลิป หรือพิมพ์ `/paid <จำนวน>`";

pub const NOTHING_TODAY: &'static str = "วันนี้ยังไม่มีรายการ";

pub const TODAY_HEADER: &'static str = "*รายการวันนี้:*\n";

pub const BULLET: &'static str = "• ";

pub const TODAY_TOTAL: &'static str = "\nรวมวันนี้: *";

pub const NOTHING_PENDING: &'static str = "ไม่มีรายการค้างชำระ";

pub const HISTORY_HEADER: &'static str = "*10 รายการล่าสุด:*\n";

pub const HASH_TICK: &'static str = "`#";

pub const TICK_SPACES: &'static str = "`  ";

pub const BAHT_SIGN_SPACES: &'static str = "฿*  _";

pub const BY: &'static str = "_ (by ";

pub const CLOSE_PAREN: &'static str = ")";

/// The history shows at most this many expenses.
pub const HISTORY_LIMIT: usize = 10;

/// A summary line: the id right-aligned to three places, the item, the
/// amount and the Bangkok date and time.
pub open spec fn summary_line(e: Expense) -> Seq<char> {
    BACKTICK@ + text::pad_left(text::signed_decimal(e.id as int), 3, ' ') + ID_END@ + e.item@
        + DASH_STAR@ + money::baht_2dp(e.amount as int) + BAHT_SIGN_UNDERSCORE@
        + clock::shown_date(e.created_at) + UNDERSCORE@
}

/// The lines of the summary of pending expenses: a header; a line for each
/// pending expense; their total; the credit and what is due after it, when
/// there is credit; and how to pay.
pub open spec fn summary_lines(s: Seq<Expense>, credit: int) -> Seq<Seq<char>> {
    let listed = seq![PENDING_HEADER@] + Seq::new(s.len(), |i: int| summary_line(s[i]));
    let with_total = listed.push(GRAND_TOTAL@ + money::baht_2dp(total(s)) + BAHT_CLOSE@);
    let with_credit = if ledger::beyond_tolerance(credit) {
        with_total.push(CREDIT_LEFT@ + money::baht_2dp(credit) + BAHT_CLOSE@).push(
            TO_TRANSFER@ + money::baht_2dp(ledger::net_due(total(s), credit)) + BAHT_CLOSE@,
        )
    } else {
        with_total
    };
    with_credit.push(SUMMARY_FOOTER@)
}

/// The summary of a chat's pending expenses with `credit` held. With no
/// pending expense it says so, and shows the credit when there is some.
pub open spec fn summary(s: Seq<Expense>, credit: int) -> Seq<char> {
    if s.len() == 0 {
        if ledger::beyond_tolerance(credit) {
            NO_PENDING_WITH_CREDIT@ + money::baht_2dp(credit) + DEDUCTED_LATER@
        } else {
            ALL_CLEARED@
        }
    } else {
        text::join_lines(summary_lines(s, credit))
    }
}

fn summary_line_of(e: &Expense) -> (l: String)
    ensures
        l@ == summary_line(*e),
{
    let mut l = String::new();
    l.append(BACKTICK);
    let id = signed_string(e.id as i128);
    push_padded(&mut l, id.as_str(), 3);
    l.append(ID_END);
    l.append(e.item.as_str());
    l.append(DASH_STAR);
    push_baht(&mut l, e.amount as i128);
    l.append(BAHT_SIGN_UNDERSCORE);
    push_date(&mut l, e.created_at);
    l.append(UNDERSCORE);
    assert(l@ =~= summary_line(*e));
    l
}

/// The summary of a chat's pending expenses that `/summary` answers with.
pub fn summary_text(expenses: &Vec<Expense>, credit: i64) -> (r: String)
    ensures
        r@ == summary(expenses@, credit as int),
{
    let n = expenses.len();
    if n == 0 {
        if credit > 1 {
            let mut out = String::new();
            out.append(NO_PENDING_WITH_CREDIT);
            push_baht(&mut out, credit as i128);
            out.append(DEDUCTED_LATER);
            assert(out@ =~= summary(expenses@, credit as int));
            return out;
        } else {
            return ALL_CLEARED.to_owned();
        }
    }
    let t = total_of(expenses);
    let ghost s = expenses@;
    let mut lines: Vec<String> = Vec::new();
    lines.push(PENDING_HEADER.to_owned());
    let mut i: usize = 0;
    while i < n
        invariant
            s == expenses@,
            n == s.len(),
            i <= n,
            lines@.len() == i + 1,
            lines@[0]@ == PENDING_HEADER@,
            forall|k: int| 1 <= k <= i ==> #[trigger] lines@[k]@ == summary_line(s[k - 1]),
        decreases n - i,
    {
        let l = summary_line_of(&expenses[i]);
        lines.push(l);
        i = i + 1;
    }
    let mut tl = String::new();
    tl.append(GRAND_TOTAL);
    push_baht(&mut tl, t);
    tl.append(BAHT_CLOSE);
    lines.push(tl);
    if credit > 1 {
        proof {
            assert((n as int) * 0x8000_0000_0000_0000 <= 0xffff_ffff_ffff_ffff
                * 0x8000_0000_0000_0000) by (nonlinear_arith)
                requires
                    n <= 0xffff_ffff_ffff_ffff,
            ;
            assert((n as int) * 0x7fff_ffff_ffff_ffff <= 0xffff_ffff_ffff_ffff
                * 0x7fff_ffff_ffff_ffff) by (nonlinear_arith)
                requires
                    n <= 0xffff_ffff_ffff_ffff,
            ;
        }
        let mut cl = String::new();
        cl.append(CREDIT_LEFT);
        push_baht(&mut cl, credit as i128);
        cl.append(BAHT_CLOSE);
        lines.push(cl);
        let mut dl = String::new();
        dl.append(TO_TRANSFER);
        push_baht(&mut dl, due(t, credit as i128));
        dl.append(BAHT_CLOSE);
        lines.push(dl);
    }
    lines.push(SUMMARY_FOOTER.to_owned());
    assert(text::views(lines@) =~= summary_lines(s, credit as int));
    join(&lines)
}

/// A line of today's list: the item, the amount and the Bangkok time.
pub open spec fn today_line(e: Expense) -> Seq<char> {
    BULLET@ + e.item@ + DASH_STAR@ + money::baht_2dp(e.amount as int) + BAHT_SIGN_UNDERSCORE@
        + clock::shown_time(e.created_at) + UNDERSCORE@
}

/// Today's list: a header, a line for each of today's expenses and their
/// total; or that there is none today.
pub open spec fn today_report(s: Seq<Expense>) -> Seq<char> {
    if s.len() == 0 {
        NOTHING_TODAY@
    } else {
        text::join_lines(
            (seq![TODAY_HEADER@] + Seq::new(s.len(), |i: int| today_line(s[i]))).push(
                TODAY_TOTAL@ + money::baht_2dp(total(s)) + BAHT_CLOSE@,
            ),
        )
    }
}

/// Today's list that `/today` answers with, for the expenses recorded today.
pub fn today_text(expenses: &Vec<Expense>) -> (r: String)
    ensures
        r@ == today_report(expenses@),
{
    let n = expenses.len();
    if n == 0 {
        return NOTHING_TODAY.to_owned();
    }
    let t = total_of(expenses);
    let ghost s = expenses@;
    let mut lines: Vec<String> = Vec::new();
    lines.push(TODAY_HEADER.to_owned());
    let mut i: usize = 0;
    while i < n
        invariant
            s == expenses@,
            n == s.len(),
            i <= n,
            lines@.len() == i + 1,
            lines@[0]@ == TODAY_HEADER@,
            forall|k: int| 1 <= k <= i ==> #[trigger] lines@[k]@ == today_line(s[k - 1]),
        decreases n - i,
    {
        let e = &expenses[i];
        let mut l = String::new();
        l.append(BULLET);
        l.append(e.item.as_str());
        l.append(DASH_STAR);
        push_baht(&mut l, e.amount as i128);
        l.append(BAHT_SIGN_UNDERSCORE);
        push_time(&mut l, e.created_at);
        l.append(UNDERSCORE);
        assert(l@ =~= today_line(*e));
        lines.push(l);
        i = i + 1;
    }
    let mut tl = String::new();
    tl.append(TODAY_TOTAL);
    push_baht(&mut tl, t);
    tl.append(BAHT_CLOSE);
    lines.push(tl);
    assert(text::views(lines@) =~= (seq![TODAY_HEADER@] + Seq::new(
        s.len(),
        |k: int| today_line(s[k]),
    )).push(TODAY_TOTAL@ + money::baht_2dp(total(s)) + BAHT_CLOSE@));
    join(&lines)
}

/// Whether expense `i` comes before expense `j` in the history: it was
/// recorded later, or at the same time and stands earlier in the list.
pub open spec fn comes_before(s: Seq<Expense>, i: int, j: int) -> bool {
    s[i].created_at > s[j].created_at || (s[i].created_at == s[j].created_at && i < j)
}

/// Whether `order` lists the `limit` most recent expenses of `s` (all of
/// them when there are fewer), latest first, the ones recorded at the same
/// time in their order in `s`.
pub open spec fn is_latest_first(s: Seq<Expense>, order: Seq<usize>, limit: nat) -> bool {
    &&& order.len() <= limit
    &&& forall|k: int| 0 <= k < order.len() ==> order[k] < s.len()
    &&& forall|k: int, l: int|
        0 <= k < l < order.len() ==> comes_before(s, order[k] as int, order[l] as int)
    &&& forall|i: int|
        0 <= i < s.len() && !#[trigger] order.contains(i as usize) ==> order.len() == limit && (
        order.len() > 0 ==> comes_before(s, order.last() as int, i))
}

/// Whether expense `j` comes after the last one listed in `order` (any
/// expense does when nothing is listed yet).
pub open spec fn after_last(s: Seq<Expense>, order: Seq<usize>, j: int) -> bool {
    order.len() == 0 || comes_before(s, order.last() as int, j)
}

/// Coming before in the history is transitive and irreflexive, and any two
/// different expenses come one before the other.
pub proof fn lemma_comes_before(s: Seq<Expense>, a: int, b: int, c: int)
    ensures
        comes_before(s, a, b) && comes_before(s, b, c) ==> comes_before(s, a, c),
        !comes_before(s, a, a),
        a != b ==> comes_before(s, a, b) || comes_before(s, b, a),
        comes_before(s, a, b) ==> !comes_before(s, b, a),
{
}

/// The indices of the `limit` most recent expenses, latest first; among
/// expenses recorded at the same time the earlier in the list comes first.
pub fn latest_first(expenses: &Vec<Expense>, limit: usize) -> (order: Vec<usize>)
    ensures
        is_latest_first(expenses@, order@, limit as nat),
{
    let ghost s = expenses@;
    let n = expenses.len();
    let mut order: Vec<usize> = Vec::new();
    while order.len() < limit
        invariant
            s == expenses@,
            n == s.len(),
            order.len() <= limit,
            forall|k: int| 0 <= k < order.len() ==> order[k] < n,
            forall|k: int, l: int|
                0 <= k < l < order.len() ==> comes_before(s, order[k] as int, order[l] as int),
            forall|i: int|
                0 <= i < n ==> (#[trigger] order@.contains(i as usize) <==> (order.len() > 0
                    && !comes_before(s, order@.last() as int, i))),
        ensures
            s == expenses@,
            n == s.len(),
            order.len() <= limit,
            forall|k: int| 0 <= k < order.len() ==> order[k] < n,
            forall|k: int, l: int|
                0 <= k < l < order.len() ==> comes_before(s, order[k] as int, order[l] as int),
            forall|i: int|
                0 <= i < n ==> (#[trigger] order@.contains(i as usize) <==> (order.len() > 0
                    && !comes_before(s, order@.last() as int, i))),
            order.len() == limit || forall|j: int| 0 <= j < n ==> #[trigger] order@.contains(
                j as usize,
            ),
        decreases limit - order.len(),
    {
        let k = order.len();
        let mut best: usize = n;
        let mut i: usize = 0;
        while i < n
            invariant
                s == expenses@,
                n == s.len(),
                k == order.len(),
                k > 0 ==> order@.last() < n,
                i <= n,
                best == n || (best < i && after_last(s, order@, best as int)),
                forall|j: int|
                    0 <= j < i && #[trigger] after_last(s, order@, j) ==> best < n && (j == best
                        || comes_before(s, best as int, j)),
            decreases n - i,
        {
            let eligible = k == 0 || {
                let p = order[k - 1];
                expenses[p].created_at > expenses[i].created_at || (expenses[p].created_at
                    == expenses[i].created_at && p < i)
            };
            assert(eligible == after_last(s, order@, i as int));
            if eligible {
                if best == n || expenses[i].created_at > expenses[best].created_at {
                    let ghost old_best = best;
                    best = i;
                    proof {
                        assert forall|j: int|
                            0 <= j < i + 1 && #[trigger] after_last(s, order@, j) implies best < n
                                && (j == best || comes_before(s, best as int, j)) by {
                            if j < i {
                                assert(after_last(s, order@, j));
                                lemma_comes_before(s, i as int, old_best as int, j);
                            }
                        }
                    }
                } else {
                    assert(comes_before(s, best as int, i as int));
                }
            }
            i = i + 1;
        }
        if best == n {
            proof {
                assert forall|j: int| 0 <= j < n implies #[trigger] order@.contains(j as usize) by {
                    if !order@.contains(j as usize) {
                        assert(after_last(s, order@, j));
                    }
                }
            }
            break ;
        }
        let ghost old_order = order@;
        let ghost old_last = if k > 0 {
            old_order.last() as int
        } else {
            0
        };
        order.push(best);
        proof {
            assert(order@ == old_order.push(best));
            assert forall|a: int, b: int| 0 <= a < b < order.len() implies comes_before(
                s,
                order[a] as int,
                order[b] as int,
            ) by {
                if b == k && a < k - 1 {
                    assert(comes_before(s, old_order[a] as int, old_order[k - 1] as int));
                    lemma_comes_before(s, old_order[a] as int, old_last, best as int);
                }
            }
            assert forall|j: int| 0 <= j < n implies (#[trigger] order@.contains(j as usize) <==> (
            order.len() > 0 && !comes_before(s, order@.last() as int, j))) by {
                lemma_comes_before(s, old_last, best as int, j);
                lemma_comes_before(s, best as int, j, j);
                if old_order.contains(j as usize) {
                    let x = choose|x: int| 0 <= x < old_order.len() && old_order[x] == j as usize;
                    assert(order@[x] == j as usize);
                }
                if j == best {
                    assert(order@[k as int] == j as usize);
                }
                if !old_order.contains(j as usize) {
                    assert(after_last(s, old_order, j));
                }
                if order@.contains(j as usize) && j != best {
                    let x = choose|x: int| 0 <= x < order.len() && order@[x] == j as usize;
                    assert(x < k);
                    assert(old_order[x] == j as usize);
                    assert(old_order.contains(j as usize));
                }
            }
        }
    }
    order
}

/// A history line: the id, the item, the amount, the Bangkok date and time
/// and who recorded it.
pub open spec fn history_line(e: Expense) -> Seq<char> {
    HASH_TICK@ + text::signed_decimal(e.id as int) + TICK_SPACES@ + e.item@ + DASH_STAR@
        + money::baht_2dp(e.amount as int) + BAHT_SIGN_SPACES@ + clock::shown_date(e.created_at)
        + BY@ + e.paid_by@ + CLOSE_PAREN@
}

/// The history: a header and a line for each expense in `order`; or that
/// there is no pending expense.
pub open spec fn history_report(s: Seq<Expense>, order: Seq<usize>) -> Seq<char> {
    if order.len() == 0 {
        NOTHING_PENDING@
    } else {
        text::join_lines(
            seq![HISTORY_HEADER@] + Seq::new(order.len(), |k: int| history_line(s[order[k] as int])),
        )
    }
}

/// The history that `/history` answers with: the ten most recent pending
/// expenses, latest first.
pub fn history_text(expenses: &Vec<Expense>) -> (r: String)
    ensures
        exists|order: Seq<usize>|
            is_latest_first(expenses@, order, HISTORY_LIMIT as nat) && r@ == history_report(
                expenses@,
                order,
            ),
{
    let order = latest_first(expenses, HISTORY_LIMIT);
    let m = order.len();
    if m == 0 {
        assert(history_report(expenses@, order@) == NOTHING_PENDING@);
        return NOTHING_PENDING.to_owned();
    }
    let ghost s = expenses@;
    let mut lines: Vec<String> = Vec::new();
    lines.push(HISTORY_HEADER.to_owned());
    let mut k: usize = 0;
    while k < m
        invariant
            s == expenses@,
            m == order@.len(),
            is_latest_first(s, order@, HISTORY_LIMIT as nat),
            k <= m,
            lines@.len() == k + 1,
            lines@[0]@ == HISTORY_HEADER@,
            forall|j: int| 1 <= j <= k ==> #[trigger] lines@[j]@ == history_line(s[order@[j - 1] as int]),
        decreases m - k,
    {
        let e = &expenses[order[k]];
        let mut l = String::new();
        l.append(HASH_TICK);
        text::push_signed(&mut l, e.id as i128);
        l.append(TICK_SPACES);
        l.append(e.item.as_str());
        l.append(DASH_STAR);
        push_baht(&mut l, e.amount as i128);
        l.append(BAHT_SIGN_SPACES);
        push_date(&mut l, e.created_at);
        l.append(BY);
        l.append(e.paid_by.as_str());
        l.append(CLOSE_PAREN);
        assert(l@ =~= history_line(*e));
        lines.push(l);
        k = k + 1;
    }
    assert(text::views(lines@) =~= seq![HISTORY_HEADER@] + Seq::new(
        m as nat,
        |j: int| history_line(s[order@[j] as int]),
    ));
    let r = join(&lines);
    assert(r@ == history_report(expenses@, order@));
    r
}

/// The history's order is determined: two orders that both list the
/// latest expenses first, up to the same limit, are the same order.
pub proof fn law_latest_first_unique(s: Seq<Expense>, o1: Seq<usize>, o2: Seq<usize>, limit: nat)
    requires
        is_latest_first(s, o1, limit),
        is_latest_first(s, o2, limit),
    ensures
        o1 == o2,
{
    assert forall|k: int| 0 <= k < o1.len() && k < o2.len() implies o1[k] == o2[k] by {
        lemma_same_prefix(s, o1, o2, limit, k);
    }
    if o1.len() < o2.len() {
        lemma_longer_order(s, o1, o2, limit);
    } else if o2.len() < o1.len() {
        assert forall|k: int| 0 <= k < o2.len() && k < o1.len() implies o2[k] == o1[k] by {
            lemma_same_prefix(s, o1, o2, limit, k);
        }
        lemma_longer_order(s, o2, o1, limit);
    }
    assert(o1 =~= o2);
}

/// Orders that list the latest first agree position by position.
proof fn lemma_same_prefix(s: Seq<Expense>, o1: Seq<usize>, o2: Seq<usize>, limit: nat, k: int)
    requires
        is_latest_first(s, o1, limit),
        is_latest_first(s, o2, limit),
        0 <= k < o1.len(),
        k < o2.len(),
    ensures
        o1[k] == o2[k],
    decreases k,
{
    if k > 0 {
        lemma_same_prefix(s, o1, o2, limit, k - 1);
    }
    assert forall|j: int| 0 <= j < k implies o1[j] == o2[j] by {
        lemma_same_prefix(s, o1, o2, limit, j);
    }
    let a = o1[k] as int;
    let b = o2[k] as int;
    if a != b {
        lemma_comes_before(s, a, b, a);
        if comes_before(s, a, b) {
            lemma_not_later(s, o2, o1, limit, k);
        } else {
            lemma_not_later(s, o1, o2, limit, k);
        }
    }
}

/// When two orders that list the latest first agree before position `k`,
/// the first one's `k`-th expense does not come before the second one's.
proof fn lemma_not_later(s: Seq<Expense>, y: Seq<usize>, x: Seq<usize>, limit: nat, k: int)
    requires
        is_latest_first(s, x, limit),
        is_latest_first(s, y, limit),
        0 <= k < x.len(),
        k < y.len(),
        forall|j: int| 0 <= j < k ==> x[j] == y[j],
    ensures
        !comes_before(s, x[k] as int, y[k] as int),
{
    let a = x[k];
    if !comes_before(s, a as int, y[k] as int) {
        return;
    }
    let b = y[k];
    if y.contains(a) {
        let p = choose|p: int| 0 <= p < y.len() && y[p] == a;
        if p < k {
            assert(x[p] == a);
            assert(comes_before(s, x[p] as int, x[k] as int));
            lemma_comes_before(s, a as int, a as int, a as int);
        } else if p == k {
            lemma_comes_before(s, a as int, b as int, a as int);
        } else {
            assert(comes_before(s, y[k] as int, y[p] as int));
            lemma_comes_before(s, a as int, b as int, a as int);
        }
    } else {
        let last = y.last() as int;
        assert(a < s.len());
        assert(!y.contains((a as int) as usize));
        assert(comes_before(s, last, a as int));
        if k < y.len() - 1 {
            assert(comes_before(s, y[k] as int, y[y.len() - 1] as int));
            lemma_comes_before(s, b as int, last, a as int);
        }
        lemma_comes_before(s, a as int, b as int, a as int);
    }
}

/// An order that lists the latest first and agrees with another such order
/// on its positions is at least as long.
proof fn lemma_longer_order(s: Seq<Expense>, short: Seq<usize>, long: Seq<usize>, limit: nat)
    requires
        is_latest_first(s, short, limit),
        is_latest_first(s, long, limit),
        forall|k: int| 0 <= k < short.len() && k < long.len() ==> short[k] == long[k],
    ensures
        short.len() >= long.len(),
{
    if short.len() >= long.len() {
        return;
    }
    let k = short.len() as int;
    let x = long[k];
    if short.contains(x) {
        let p = choose|p: int| 0 <= p < short.len() && short[p] == x;
        assert(long[p] == x);
        assert(comes_before(s, long[p] as int, long[k] as int));
        lemma_comes_before(s, x as int, x as int, x as int);
    } else {
        assert(x < s.len());
        assert(!short.contains((x as int) as usize));
        assert(short.len() == limit);
    }
}

/// The amount to transfer that the summary shows is never negative: with
/// credit that counts, the summary of pending expenses lists each of them,
/// then their total, the credit, and the total less the credit, or zero
/// when the credit covers it.
pub proof fn law_summary_amount_to_transfer(s: Seq<Expense>, credit: int)
    requires
        credit > 1,
    ensures
        ({
            let lines = summary_lines(s, credit);
            let n = s.len() as int;
            let v = if total(s) > credit {
                total(s) - credit
            } else {
                0
            };
            &&& lines.len() == n + 5
            &&& lines[0] == PENDING_HEADER@
            &&& forall|i: int| 0 <= i < n ==> #[trigger] lines[i + 1] == summary_line(s[i])
            &&& lines[n + 1] == GRAND_TOTAL@ + money::baht_2dp(total(s)) + BAHT_CLOSE@
            &&& lines[n + 2] == CREDIT_LEFT@ + money::baht_2dp(credit) + BAHT_CLOSE@
            &&& lines[n + 3] == TO_TRANSFER@ + money::baht_2dp(v) + BAHT_CLOSE@
            &&& lines[n + 4] == SUMMARY_FOOTER@
            &&& v >= 0
            &&& total(s) <= credit ==> v == 0
            &&& n > 0 ==> summary(s, credit) == text::join_lines(lines)
            &&& n == 0 ==> summary(s, credit) == NO_PENDING_WITH_CREDIT@ + money::baht_2dp(credit)
                + DEDUCTED_LATER@
        }),
{
}

/// Without credit that counts, the summary of pending expenses lists each
/// of them, then their total and how to pay; with nothing pending it says
/// that all is cleared.
pub proof fn law_summary_without_credit(s: Seq<Expense>, credit: int)
    requires
        credit <= 1,
    ensures
        ({
            let lines = summary_lines(s, credit);
            let n = s.len() as int;
            &&& lines.len() == n + 3
            &&& lines[0] == PENDING_HEADER@
            &&& forall|i: int| 0 <= i < n ==> #[trigger] lines[i + 1] == summary_line(s[i])
            &&& lines[n + 1] == GRAND_TOTAL@ + money::baht_2dp(total(s)) + BAHT_CLOSE@
            &&& lines[n + 2] == SUMMARY_FOOTER@
            &&& n > 0 ==> summary(s, credit) == text::join_lines(lines)
            &&& n == 0 ==> summary(s, credit) == ALL_CLEARED@
        }),
{
}

/// A summary line gives the expense's id right-aligned to three places,
/// its item, its amount with two decimals and its Bangkok date and time.
pub proof fn law_summary_line(e: Expense)
    ensures
        summary_line(e) == BACKTICK@ + text::pad_left(text::signed_decimal(e.id as int), 3, ' ')
            + ID_END@ + e.item@ + DASH_STAR@ + money::baht_2dp(e.amount as int)
            + BAHT_SIGN_UNDERSCORE@ + clock::shown_date(e.created_at) + UNDERSCORE@,
{
}

/// The history says that nothing is pending only when the chat has no
/// pending expense; with any pending expense it is the header followed by
/// a line for each expense of the order: ten of them, or all of them when
/// there are fewer; each line gives the id, the item, the amount, the
/// Bangkok date and time, and who recorded it. (A list of expenses is a `Vec`, so its length fits in a
/// `usize`.)
pub proof fn law_history_reports_pending(s: Seq<Expense>, order: Seq<usize>)
    requires
        is_latest_first(s, order, HISTORY_LIMIT as nat),
        s.len() <= usize::MAX,
    ensures
        s.len() == 0 ==> history_report(s, order) == NOTHING_PENDING@,
        s.len() > 0 ==> {
            &&& 1 <= order.len() <= HISTORY_LIMIT
            &&& order.len() == if s.len() < HISTORY_LIMIT {
                s.len()
            } else {
                HISTORY_LIMIT as nat
            }
            &&& history_report(s, order) != NOTHING_PENDING@
            &&& history_report(s, order) == text::join_lines(
                seq![HISTORY_HEADER@] + Seq::new(
                    order.len(),
                    |k: int| history_line(s[order[k] as int]),
                ),
            )
            &&& forall|e: Expense|
                #![trigger history_line(e)]
                history_line(e) == HASH_TICK@ + text::signed_decimal(e.id as int) + TICK_SPACES@
                    + e.item@ + DASH_STAR@ + money::baht_2dp(e.amount as int) + BAHT_SIGN_SPACES@
                    + clock::shown_date(e.created_at) + BY@ + e.paid_by@ + CLOSE_PAREN@
        },
{
    if s.len() == 0 {
        if order.len() > 0 {
            assert(order[0] < s.len());
        }
    } else {
        if order.len() == 0 {
            let i: int = 0;
            assert(!order.contains(i as usize));
            assert(order.len() == HISTORY_LIMIT as nat);
        }
        lemma_history_length(s, order);
        let lines = seq![HISTORY_HEADER@] + Seq::new(
            order.len(),
            |k: int| history_line(s[order[k] as int]),
        );
        assert(lines[0] == HISTORY_HEADER@);
        text::lemma_join_lines_first(lines);
        reveal_strlit("*10 รายการล่าสุด:*\n");
        reveal_strlit("ไม่มีรายการค้างชำระ");
        let r = history_report(s, order);
        assert(order.len() > 0);
        assert(r == text::join_lines(lines));
        assert(HISTORY_HEADER@.len() > 0);
        assert(r.subrange(0, HISTORY_HEADER@.len() as int)[0] == r[0]);
        assert(r[0] == HISTORY_HEADER@[0]);
        assert(r[0] != NOTHING_PENDING@[0]);
    }
}

/// An order of the latest expenses, up to ten, lists ten of them, or all
/// of them when there are fewer.
proof fn lemma_history_length(s: Seq<Expense>, order: Seq<usize>)
    requires
        is_latest_first(s, order, HISTORY_LIMIT as nat),
        s.len() <= usize::MAX,
    ensures
        order.len() == if s.len() < HISTORY_LIMIT {
            s.len()
        } else {
            HISTORY_LIMIT as nat
        },
{
    broadcast use vstd::seq_lib::group_seq_properties;
    let o = order.map_values(|x: usize| x as int);
    let n = s.len() as int;
    assert forall|i: int, j: int| 0 <= i < o.len() && 0 <= j < o.len() && i != j implies o[i]
        != o[j] by {
        if i < j {
            assert(comes_before(s, order[i] as int, order[j] as int));
        } else {
            assert(comes_before(s, order[j] as int, order[i] as int));
        }
    }
    assert(o.no_duplicates());
    o.unique_seq_to_set();
    vstd::set_lib::lemma_int_range(0, n);
    let range = vstd::set_lib::set_int_range(0, n);
    assert forall|x: int| o.to_set().contains(x) implies range.contains(x) by {
        let k = choose|k: int| 0 <= k < o.len() && o[k] == x;
        assert(order[k] < s.len());
    }
    vstd::set_lib::lemma_len_subset(o.to_set(), range);
    if o.len() < HISTORY_LIMIT {
        assert forall|x: int| range.contains(x) implies o.to_set().contains(x) by {
            let u = x as usize;
            assert(u as int == x);
            if !order.contains(x as usize) {
                assert(order.len() == HISTORY_LIMIT as nat);
            }
            let k = choose|k: int| 0 <= k < order.len() && order[k] == u;
            assert(o[k] == x);
        }
        vstd::set_lib::lemma_len_subset(range, o.to_set());
    }
}

} // verus!
