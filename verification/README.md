# mailserver

A small mail server: an SMTP receiver that stores incoming mail and a POP3
service that hands it out, with CRAM-MD5 authentication.

- `src/` is the verified library. Each protocol is a state machine
  (`smtp::SmtpSession`, `pop3::Pop3Session`) whose `step` is proved to match
  a specification of the protocol (`smtp_step`, `pop3_step`), and whose
  `handle` answers exactly the events the server answers. `auth` checks
  CRAM-MD5 digests, `text` holds the verified text handling both protocols
  share, `models` the mail and user records, and `db` the store's schema.
  The proof functions named `lemma_*` state properties of the protocols:
  what DATA collects is what RETR returns, the listings describe the mails
  RETR sends, who is let in by CRAM-MD5, and which commands change the
  session's credentials.
- `app/` is the program: it listens on the SMTP and POP3 ports, reads and
  writes the connections, keeps the store in SQLite and feeds the sessions
  the results.
- `tests/` runs the library on concrete conversations.
