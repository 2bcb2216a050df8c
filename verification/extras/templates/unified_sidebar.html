<div class="flex flex-col h-full">
<!-- Header -->
<div class="px-4 py-3 border-b border-border flex-shrink-0">
<h2 class="text-xs font-semibold text-muted-fg uppercase tracking-wider">Notes</h2>
</div>
<!-- Search -->
<div class="px-3 pt-3 pb-2 flex-shrink-0">
<input type="text" id="sidebar-search-input" name="q" placeholder="Search notes..."
hx-get="/search"
hx-target="#timeline"
hx-swap="innerHTML"
hx-trigger="keyup changed delay:400ms, search"
hx-on::before-request="if (this.value === '') { event.detail.pathInfo.requestPath = '/memos-feed' }"
hx-on::after-request="htmx.trigger('body', 'searchUpdated')"
oninput="debouncedFilterSidebar(this.value)"
class="w-full px-3 py-1.5 bg-card border border-border rounded-lg text-sm text-foreground placeholder-muted-fg focus:outline-none focus:ring-2 focus:ring-accent-500 focus:border-transparent transition-all" />
</div>
<!-- Bulk Actions -->
<div id="note-bulk-actions" class="hidden px-3 py-1.5 border-b border-border flex-shrink-0 flex items-center justify-between bg-muted/20">
<label class="flex items-center gap-1.5 text-xs text-muted-fg cursor-pointer">
<input type="checkbox" id="note-select-all" onchange="toggleSelectAllNotes()" class="rounded border-border">
Select All
</label>
<button onclick="deleteSelectedNotes()" class="px-2 py-1 text-xs font-medium text-red-500 hover:bg-red-50 dark:hover:bg-red-900/20 rounded-md transition-colors">
Delete Selected (<span id="note-selected-count">0</span>)
</button>
</div>
<!-- Note List (primary content, scrollable) -->
<div class="flex-1 overflow-y-auto min-h-0 p-2 space-y-0.5" id="notes-list-container">
{% if notes %}
{% for note in notes %}
<div data-note-id="{{ note.id }}" data-title="{{ note.title|e }}" data-search="{{ note.search_text|e }}"
class="p-2.5 rounded-lg hover:bg-muted transition-colors flex gap-1.5 items-start group cursor-pointer"
onclick="if(!event.target.closest('.note-checkbox-wrap'))openNote({{ note.id }})">
<div class="note-checkbox-wrap pt-0.5 flex-shrink-0">
<input type="checkbox" class="note-checkbox rounded border-border/60" value="{{ note.id }}" onchange="updateNoteBulkActions()">
</div>
<div class="flex-1 min-w-0">
<p class="note-title text-sm font-medium text-foreground truncate flex items-center gap-1.5">
{{ note.title }}
{% if note.visibility == 'public' %}
<svg class="w-3.5 h-3.5 text-green-600 dark:text-green-400 shrink-0" fill="none" stroke="currentColor" viewBox="0 0 24 24"><path stroke-linecap="round" stroke-linejoin="round" stroke-width="2" d="M3.055 11H5a2 2 0 012 2v1a2 2 0 002 2 2 2 0 012 2v2.945M8 3.935V5.5A2.5 2.5 0 0010.5 8h.5a2 2 0 012 2 2 2 0 104 0 2 2 0 012-2h1.064M15 20.488V18a2 2 0 012-2h3.064M21 12a9 9 0 11-18 0 9 9 0 0118 0z"/></svg>
{% elif note.visibility == 'protected' %}
<svg class="w-3.5 h-3.5 text-amber-600 dark:text-amber-400 shrink-0" fill="none" stroke="currentColor" viewBox="0 0 24 24"><rect x="3" y="11" width="18" height="11" rx="2" stroke-width="2"/><path d="M7 11V7a5 5 0 0110 0v4" stroke-width="2"/></svg>
{% endif %}
</p>
<p class="text-xs text-muted-fg mt-0.5">{{ note.created_at }}</p>
{% if note.tags %}
<div class="flex flex-wrap gap-1 mt-1.5">
{% for tag in note.tags %}
<span class="inline-block px-1.5 py-0.5 text-[10px] font-medium rounded bg-accent-50 dark:bg-accent-900/20 text-accent-600 dark:text-accent-500">#{{ tag }}</span>
{% endfor %}
</div>
{% endif %}
</div>
{% if note.first_image_id %}
<div class="w-12 h-12 rounded-lg overflow-hidden border border-border shrink-0 bg-muted dark:bg-muted">
<img src="/resources/{{ note.first_image_id }}" class="w-full h-full object-cover" loading="lazy">
</div>
{% endif %}
</div>
{% endfor %}
{% else %}
<p class="text-sm text-muted-fg p-3 text-center">No notes yet</p>
{% endif %}
{% if next_offset %}
<div id="sentinel-notes-{{ offset }}" class="h-4"
hx-get="/unified-sidebar?offset={{ next_offset }}"
hx-trigger="revealed"
hx-swap="outerHTML"></div>
{% endif %}
</div>
<!-- Calendar (collapsible) -->
<div class="border-t border-border flex-shrink-0">
<button onclick="toggleSection('calendar-section', this)"
class="w-full flex items-center justify-between px-3 py-2 text-xs font-semibold text-muted-fg uppercase tracking-wider hover:bg-muted/50 transition-colors">
<span>Calendar</span>
<div class="flex items-center gap-2">
<span class="text-muted-fg font-normal normal-case">{{ month_label }}</span>
<svg class="w-3 h-3 section-chevron transition-transform" fill="none" stroke="currentColor" viewBox="0 0 24 24"><path stroke-linecap="round" stroke-linejoin="round" stroke-width="2" d="M19 9l-7 7-7-7"/></svg>
</div>
</button>
<div id="calendar-section" class="hidden px-3 pb-2"
hx-trigger="searchUpdated from:body"
hx-get="/calendar"
hx-target="this"
hx-swap="innerHTML"
hx-include="#sidebar-search-input, #selected-calendar-date">
<div class="flex items-center justify-between mb-2">
<h3 class="text-xs font-semibold text-muted-fg uppercase tracking-wider">{{ month_label }}</h3>
</div>
<div class="grid grid-cols-7 gap-0.5">
<div class="col-span-7 grid grid-cols-7 text-center text-xs text-muted-fg font-medium mb-0.5">
<span class="py-0.5">Mon</span><span class="py-0.5">Tue</span><span class="py-0.5">Wed</span><span class="py-0.5">Thu</span><span class="py-0.5">Fri</span><span class="py-0.5">Sat</span><span class="py-0.5">Sun</span>
</div>
{% for week in calendar_weeks %}
<div class="col-span-7 grid grid-cols-7 gap-0.5">
{% for day in week %}
{% if day.is_current_month and not day.is_future %}
<button hx-get="/search?date={{ day.date }}"
hx-target="#timeline"
hx-swap="innerHTML"
hx-on::after-request="_selectedCalendarDate='{{ day.date }}'; var d=document.getElementById('selected-calendar-date'); if(d)d.value='{{ day.date }}'; htmx.trigger('body', 'searchUpdated')"
class="relative flex items-center justify-center w-full aspect-square text-[11px] leading-none transition-colors rounded-lg
{% if day.is_selected %} bg-accent-600 dark:bg-accent-100 text-white dark:text-accent-800 font-semibold shadow-sm outline outline-2 outline-white dark:outline-white
{% elif day.has_memos %} text-accent-600 dark:text-accent-800 bg-accent-50 dark:bg-accent-200/80 font-medium hover:bg-accent-100 dark:hover:bg-accent-300/80
{% else %} text-muted-fg hover:bg-muted dark:hover:bg-muted{% endif %}">
{{ day.day }}
</button>
{% elif day.is_current_month and day.is_future %}
<div class="flex items-center justify-center w-full aspect-square text-[11px] text-muted-fg/40 dark:text-muted-fg/30 select-none">{{ day.day }}</div>
{% else %}
<div class="w-full aspect-square"></div>
{% endif %}
{% endfor %}
</div>
{% endfor %}
</div>
</div>
</div>
<!-- Tags (collapsible) -->
<div class="border-t border-border flex-shrink-0">
<button onclick="toggleSection('tags-section', this)"
class="w-full flex items-center justify-between px-3 py-2 text-xs font-semibold text-muted-fg uppercase tracking-wider hover:bg-muted/50 transition-colors">
<span>Tags</span>
<div class="flex items-center gap-1.5">
<span class="text-muted-fg font-normal normal-case">{{ tags|length }}</span>
<svg class="w-3 h-3 section-chevron transition-transform" fill="none" stroke="currentColor" viewBox="0 0 24 24"><path stroke-linecap="round" stroke-linejoin="round" stroke-width="2" d="M19 9l-7 7-7-7"/></svg>
</div>
</button>
<div id="tags-section" class="hidden px-3 pb-2">
<div class="flex flex-wrap gap-1.5">
{% for tag in tags %}
<button hx-get="/search?tag={{ tag.name }}"
hx-target="#timeline"
hx-swap="innerHTML"
class="inline-flex items-center gap-1 px-2 py-0.5 text-xs rounded-md bg-accent-50 dark:bg-accent-900/30 text-accent-600 dark:text-accent-400 hover:bg-accent-100 dark:hover:bg-accent-900/50 transition-colors">
#{{ tag.name }}
<span class="text-xs text-accent-400 dark:text-accent-500">{{ tag.count }}</span>
</button>
{% endfor %}
{% if not tags %}
<p class="text-xs text-muted-fg">No tags yet. Use #tag in your notes.</p>
{% endif %}
</div>
</div>
</div>
</div>