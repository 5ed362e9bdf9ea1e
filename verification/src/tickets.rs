//! Download tickets, as read from the ticket table.
use vstd::prelude::*;

use crate::text::texts;

verus! {

/// One row of the ticket table, column by column.
pub struct TicketRow {
    pub id: i64,
    pub date_created: String,
    pub download_uri: String,
    pub ticket_token: String,
    pub file_size: i64,
    pub requires_auth: i64,
    pub is_done: i64,
    pub file_name: String,
}

/// A download ticket.
pub struct Ticket {
    pub id: i64,
    pub date_created: String,
    pub uri: String,
    pub token: String,
    pub file_size: i64,
    pub requires_auth: bool,
    pub status: i64,
    pub file_name: String,
}

/// `ticket` holds the columns of `row`; authentication is required when the
/// column holds 1.
pub open spec fn ticket_of_row(row: TicketRow, ticket: Ticket) -> bool {
    &&& ticket.id == row.id
    &&& ticket.date_created@ == row.date_created@
    &&& ticket.uri@ == row.download_uri@
    &&& ticket.token@ == row.ticket_token@
    &&& ticket.file_size == row.file_size
    &&& ticket.requires_auth == (row.requires_auth == 1)
    &&& ticket.status == row.is_done
    &&& ticket.file_name@ == row.file_name@
}

/// The download addresses of `tickets`, in order.
pub open spec fn uris_of(tickets: Seq<Ticket>) -> Seq<Seq<char>> {
    tickets.map_values(|t: Ticket| t.uri@)
}

/// Appends the download address of every ticket to `vect`.
pub fn push_urls(vect: &mut Vec<String>, data: &Vec<Ticket>)
    ensures
        texts(final(vect)@) == texts(old(vect)@) + uris_of(data@),
{
    let ghost start = texts(vect@);
    let mut i: usize = 0;
    while i < data.len()
        invariant
            i <= data.len(),
            texts(vect@) == start + uris_of(data@).take(i as int),
        decreases data.len() - i,
    {
        let ghost before = vect@;
        let uri = data[i].uri.clone();
        vect.push(uri);
        assert(texts(vect@) =~= texts(before).push(uri@));
        assert(uris_of(data@).take(i + 1) =~= uris_of(data@).take(i as int).push(data@[i as int].uri@));
        i = i + 1;
    }
    assert(uris_of(data@).take(data.len() as int) =~= uris_of(data@));
}

/// The tickets of the rows of the ticket table: an error (0) when there is no row.
pub fn tickets_from_rows(rows: Vec<TicketRow>) -> (res: Result<Vec<Ticket>, i32>)
    ensures
        rows.len() == 0 ==> res == Err::<Vec<Ticket>, i32>(0),
        rows.len() > 0 ==> (res matches Ok(tickets) && tickets.len() == rows.len() && forall|i: int|
            0 <= i < rows.len() ==> ticket_of_row(#[trigger] rows@[i], tickets@[i])),
{
    let mut tickets: Vec<Ticket> = Vec::new();
    let mut i: usize = 0;
    while i < rows.len()
        invariant
            i <= rows.len(),
            tickets.len() == i,
            forall|k: int| 0 <= k < i ==> ticket_of_row(#[trigger] rows@[k], tickets@[k]),
        decreases rows.len() - i,
    {
        let row = &rows[i];
        let ticket = Ticket {
            id: row.id,
            date_created: row.date_created.clone(),
            uri: row.download_uri.clone(),
            token: row.ticket_token.clone(),
            file_size: row.file_size,
            requires_auth: row.requires_auth == 1,
            status: row.is_done,
            file_name: row.file_name.clone(),
        };
        tickets.push(ticket);
        i = i + 1;
    }
    if i == 0 {
        return Err(0);
    }
    Ok(tickets)
}

/// Every field of a ticket comes from its own column: the status from
/// `is_done`, the authentication flag from `requires_auth` (set when it holds 1),
/// and so on; rows that differ only in `requires_auth` give tickets with the same
/// status.
pub proof fn tickets_take_each_field_from_its_column(
    row: TicketRow,
    ticket: Ticket,
    other_row: TicketRow,
    other: Ticket,
)
    requires
        ticket_of_row(row, ticket),
        ticket_of_row(other_row, other),
    ensures
        ticket.id == row.id,
        ticket.date_created@ == row.date_created@,
        ticket.uri@ == row.download_uri@,
        ticket.token@ == row.ticket_token@,
        ticket.file_size == row.file_size,
        ticket.requires_auth <==> row.requires_auth == 1,
        ticket.status == row.is_done,
        ticket.file_name@ == row.file_name@,
        row.is_done == other_row.is_done ==> ticket.status == other.status,
{
}

} // verus!
